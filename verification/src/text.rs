//! Text statistics: word splitting on whitespace, word counts, the most
//! frequent words, average word length and the longest word.

use vstd::prelude::*;
use vstd::math::min;
use vstd::string::StrSliceExecFns;
use vstd::string::StringExecFns;

verus! {

/// Whether `c` separates words: the Unicode White_Space set.
pub open spec fn is_ws(c: char) -> bool {
    let u = c as u32;
    u == 0x09 || u == 0x0A || u == 0x0B || u == 0x0C || u == 0x0D || u == 0x20 || u == 0x85 || u
        == 0xA0 || u == 0x1680 || (0x2000 <= u && u <= 0x200A) || u == 0x2028 || u == 0x2029 || u
        == 0x202F || u == 0x205F || u == 0x3000
}

/// The words of `s`: maximal runs of non-whitespace characters, in order.
pub open spec fn split_ws(s: Seq<char>) -> Seq<Seq<char>>
    decreases s.len(),
{
    if s.len() == 0 {
        Seq::<Seq<char>>::empty()
    } else {
        let rest = split_ws(s.drop_last());
        let c = s.last();
        if is_ws(c) {
            rest
        } else if s.len() >= 2 && !is_ws(s[s.len() - 2]) {
            rest.update(rest.len() - 1, rest.last().push(c))
        } else {
            rest.push(seq![c])
        }
    }
}

/// The UTF-8 byte length of one word.
pub open spec fn word_bytes(w: Seq<char>) -> nat {
    vstd::utf8::encode_utf8(w).len()
}

/// How many UTF-8 bytes the words of `ws` hold together.
pub open spec fn total_word_bytes(ws: Seq<Seq<char>>) -> nat
    decreases ws.len(),
{
    if ws.len() == 0 {
        0
    } else {
        total_word_bytes(ws.drop_last()) + word_bytes(ws.last())
    }
}

/// One word never holds more bytes than all words together.
proof fn lemma_word_bytes_le_total(ws: Seq<Seq<char>>, k: int)
    requires
        0 <= k < ws.len(),
    ensures
        word_bytes(ws[k]) <= total_word_bytes(ws),
    decreases ws.len(),
{
    if k == ws.len() - 1 {
        assert(ws.last() == ws[k]);
    } else {
        lemma_word_bytes_le_total(ws.drop_last(), k);
        assert(ws.drop_last()[k] == ws[k]);
    }
}

/// A prefix of the word list never holds more bytes than the whole.
proof fn lemma_total_bytes_prefix(ws: Seq<Seq<char>>, k: int)
    requires
        0 <= k <= ws.len(),
    ensures
        total_word_bytes(ws.take(k)) <= total_word_bytes(ws),
    decreases ws.len() - k,
{
    if k < ws.len() {
        lemma_total_bytes_prefix(ws, k + 1);
        assert(ws.take(k + 1).drop_last() =~= ws.take(k));
        assert(total_word_bytes(ws.take(k + 1)) == total_word_bytes(ws.take(k)) + word_bytes(
            ws[k],
        ));
    } else {
        assert(ws.take(k) =~= ws);
    }
}

/// How often the word `w` occurs in `ws`.
pub open spec fn count_of(ws: Seq<Seq<char>>, w: Seq<char>) -> nat
    decreases ws.len(),
{
    if ws.len() == 0 {
        0
    } else {
        count_of(ws.drop_last(), w) + if ws.last() == w {
            1nat
        } else {
            0nat
        }
    }
}

/// Whether `w` occurs in `ws`.
pub open spec fn has_word(ws: Seq<Seq<char>>, w: Seq<char>) -> bool {
    exists|i: int| 0 <= i < ws.len() && ws[i] == w
}

/// Whether `w` occurs among the first `k` words.
pub open spec fn seen_upto(ws: Seq<Seq<char>>, k: int, w: Seq<char>) -> bool {
    exists|i: int| 0 <= i < k && i < ws.len() && ws[i] == w
}

/// How many distinct words `ws` holds.
pub open spec fn distinct_count(ws: Seq<Seq<char>>) -> nat
    decreases ws.len(),
{
    if ws.len() == 0 {
        0
    } else {
        distinct_count(ws.drop_last()) + if has_word(ws.drop_last(), ws.last()) {
            0nat
        } else {
            1nat
        }
    }
}

/// Index of the longest word in bytes, the last one when lengths tie.
pub open spec fn longest_idx(ws: Seq<Seq<char>>) -> int
    decreases ws.len(),
{
    if ws.len() <= 1 {
        0
    } else {
        let r = longest_idx(ws.drop_last());
        if word_bytes(ws.last()) >= word_bytes(ws[r]) {
            ws.len() - 1
        } else {
            r
        }
    }
}

proof fn lemma_longest_idx_in_range(ws: Seq<Seq<char>>)
    requires
        ws.len() > 0,
    ensures
        0 <= longest_idx(ws) < ws.len(),
    decreases ws.len(),
{
    if ws.len() > 1 {
        lemma_longest_idx_in_range(ws.drop_last());
        assert(ws.drop_last()[longest_idx(ws.drop_last())] == ws[longest_idx(ws.drop_last())]);
    }
}

/// What a list of the `n` most frequent words of `ws` must satisfy: one
/// entry per distinct word up to `n`, entries distinct and drawn from
/// `ws`, ordered by weakly decreasing occurrence count, and no word left
/// out that occurs more often than the last entry kept.
pub open spec fn top_words_ok(ws: Seq<Seq<char>>, n: int, r: Seq<Seq<char>>) -> bool {
    &&& r.len() == min(n, distinct_count(ws) as int)
    &&& forall|i: int, j: int| 0 <= i < j < r.len() ==> r[i] != r[j]
    &&& forall|i: int| 0 <= i < r.len() ==> has_word(ws, #[trigger] r[i])
    &&& forall|i: int, j: int|
        0 <= i <= j < r.len() ==> count_of(ws, r[i]) >= count_of(ws, r[j])
    &&& forall|w: Seq<char>|
        #[trigger] has_word(ws, w) && !has_word(r, w) ==> r.len() == 0 || count_of(ws, w)
            <= count_of(ws, r[r.len() - 1])
}

/// Statistics over one text.
pub struct TextStats {
    /// How many words the text holds.
    pub total_words: usize,
    /// How many distinct words it holds.
    pub unique_words: usize,
    /// Its ten most frequent words, most frequent first.
    pub top_words: Vec<String>,
    /// Average word length in UTF-8 bytes, rounded down.
    pub avg_word_length: usize,
    /// Its longest word in bytes, the last when lengths tie.
    pub longest_word: String,
}

/// Relies on `String::push`: appends one character.
#[verifier::external_body]
fn push_char(s: &mut String, c: char)
    ensures
        final(s)@ == old(s)@.push(c),
{
    s.push(c);
}

fn is_ws_exec(c: char) -> (r: bool)
    ensures
        r == is_ws(c),
{
    let u: u32 = c as u32;
    u == 0x09 || u == 0x0A || u == 0x0B || u == 0x0C || u == 0x0D || u == 0x20 || u == 0x85 || u
        == 0xA0 || u == 0x1680 || (0x2000 <= u && u <= 0x200A) || u == 0x2028 || u == 0x2029 || u
        == 0x202F || u == 0x205F || u == 0x3000
}

/// Splits a text into its whitespace-separated words.
pub fn split_words(content: &str) -> (out: Vec<String>)
    ensures
        out.deep_view() == split_ws(content@),
{
    let n: usize = content.unicode_len();
    let mut out: Vec<String> = Vec::new();
    let mut cur: String = String::new();
    let mut i: usize = 0;
    while i < n
        invariant
            n == content@.len(),
            0 <= i <= n,
            cur@.len() == 0 ==> out.deep_view() == split_ws(content@.take(i as int)) && (i == 0
                || is_ws(content@[i - 1])),
            cur@.len() > 0 ==> i > 0 && !is_ws(content@[i - 1]) && out.deep_view().push(cur@)
                == split_ws(content@.take(i as int)),
        decreases n - i,
    {
        let c: char = content.get_char(i);
        let ghost pre = content@.take(i as int);
        let ghost post = content@.take(i + 1 as int);
        proof {
            assert(post.drop_last() =~= pre);
            assert(post.last() == content@[i as int]);
            if i > 0 {
                assert(post[post.len() - 2] == content@[i - 1]);
            }
        }
        if is_ws_exec(c) {
            if !cur.as_str().is_empty() {
                let ghost out_pre = out.deep_view();
                out.push(cur);
                proof {
                    assert(out.deep_view() =~= out_pre.push(
                        out@[out@.len() - 1]@,
                    ));
                    assert(out.deep_view() =~= split_ws(post));
                }
                cur = String::new();
            } else {
                proof {
                    assert(split_ws(post) == split_ws(pre));
                }
            }
        } else {
            let ghost cur_pre = cur@;
            push_char(&mut cur, c);
            proof {
                if cur_pre.len() == 0 {
                    assert(split_ws(post) == split_ws(pre).push(seq![content@[i as int]]));
                    assert(cur@ =~= seq![content@[i as int]]);
                } else {
                    let rest = split_ws(pre);
                    assert(rest == out.deep_view().push(cur_pre));
                    assert(rest.len() > 0);
                    assert(split_ws(post) == rest.update(rest.len() - 1, rest.last().push(c)));
                    assert(rest.last() == cur_pre);
                    assert(rest.update(rest.len() - 1, cur_pre.push(c)) =~= out.deep_view().push(
                        cur_pre.push(c),
                    ));
                }
            }
        }
        i = i + 1;
    }
    proof {
        assert(content@.take(n as int) =~= content@);
    }
    if !cur.as_str().is_empty() {
        let ghost out_pre = out.deep_view();
        out.push(cur);
        proof {
            assert(out.deep_view() =~= out_pre.push(out@[out@.len() - 1]@));
        }
    }
    out
}

/// Whether one of the first `upto` words equals `w`.
fn word_seen(words: &Vec<String>, upto: usize, w: &String) -> (r: bool)
    requires
        upto <= words@.len(),
    ensures
        r == seen_upto(words.deep_view(), upto as int, w@),
{
    let ghost wv = words.deep_view();
    let mut i: usize = 0;
    while i < upto
        invariant
            upto <= words@.len(),
            wv == words.deep_view(),
            wv.len() == words@.len(),
            0 <= i <= upto,
            forall|j: int| 0 <= j < i ==> wv[j] != w@,
        decreases upto - i,
    {
        proof {
            assert(wv[i as int] == words@[i as int]@);
        }
        if words[i] == *w {
            return true;
        }
        i = i + 1;
    }
    false
}

/// How often `w` occurs among the words.
fn count_occurrences(words: &Vec<String>, w: &String) -> (r: usize)
    ensures
        r == count_of(words.deep_view(), w@),
{
    let ghost wv = words.deep_view();
    let n: usize = words.len();
    let mut count: usize = 0;
    let mut i: usize = 0;
    while i < n
        invariant
            n == words@.len(),
            wv == words.deep_view(),
            wv.len() == n,
            0 <= i <= n,
            count == count_of(wv.take(i as int), w@),
            count <= i,
        decreases n - i,
    {
        proof {
            assert(wv[i as int] == words@[i as int]@);
            assert(wv.take(i + 1 as int).drop_last() =~= wv.take(i as int));
            assert(wv.take(i + 1 as int).last() == wv[i as int]);
        }
        if words[i] == *w {
            count = count + 1;
        }
        i = i + 1;
    }
    proof {
        assert(wv.take(n as int) =~= wv);
    }
    count
}

/// Whether some pair carries the word `w`.
pub open spec fn pair_has(ps: Seq<(String, usize)>, w: Seq<char>) -> bool {
    exists|i: int| 0 <= i < ps.len() && ps[i].0@ == w
}

fn pair_seen(pairs: &Vec<(String, usize)>, w: &String) -> (r: bool)
    ensures
        r == pair_has(pairs@, w@),
{
    let n: usize = pairs.len();
    let mut i: usize = 0;
    while i < n
        invariant
            n == pairs@.len(),
            0 <= i <= n,
            forall|j: int| 0 <= j < i ==> (#[trigger] pairs@[j]).0@ != w@,
        decreases n - i,
    {
        if pairs[i].0 == *w {
            return true;
        }
        i = i + 1;
    }
    false
}

/// One pair per distinct word, in first-seen order, with its count.
fn count_pairs(words: &Vec<String>) -> (pairs: Vec<(String, usize)>)
    ensures
        pairs@.len() == distinct_count(words.deep_view()),
        forall|k: int, l: int|
            0 <= k < l < pairs@.len() ==> (#[trigger] pairs@[k]).0@ != (#[trigger] pairs@[l]).0@,
        forall|k: int|
            0 <= k < pairs@.len() ==> has_word(words.deep_view(), (#[trigger] pairs@[k]).0@),
        forall|k: int|
            0 <= k < pairs@.len() ==> (#[trigger] pairs@[k]).1 == count_of(
                words.deep_view(),
                pairs@[k].0@,
            ),
        forall|w: Seq<char>| #[trigger] has_word(words.deep_view(), w) ==> pair_has(pairs@, w),
{
    let ghost wv = words.deep_view();
    let n: usize = words.len();
    let mut pairs: Vec<(String, usize)> = Vec::new();
    let mut i: usize = 0;
    while i < n
        invariant
            n == words@.len(),
            wv == words.deep_view(),
            wv.len() == n,
            0 <= i <= n,
            pairs@.len() == distinct_count(wv.take(i as int)),
            forall|k: int, l: int|
                0 <= k < l < pairs@.len() ==> (#[trigger] pairs@[k]).0@ != (#[trigger]
                pairs@[l]).0@,
            forall|k: int| 0 <= k < pairs@.len() ==> has_word(wv, (#[trigger] pairs@[k]).0@),
            forall|k: int|
                0 <= k < pairs@.len() ==> (#[trigger] pairs@[k]).1 == count_of(wv, pairs@[k].0@),
            forall|w: Seq<char>| #[trigger] seen_upto(wv, i as int, w) <==> pair_has(pairs@, w),
        decreases n - i,
    {
        proof {
            assert(wv[i as int] == words@[i as int]@);
            assert(wv.take(i + 1 as int).drop_last() =~= wv.take(i as int));
            assert(wv.take(i + 1 as int).last() == wv[i as int]);
            assert forall|w: Seq<char>| has_word(wv.take(i as int), w) implies seen_upto(
                wv,
                i as int,
                w,
            ) by {
                let k = choose|k: int| 0 <= k < wv.take(i as int).len() && wv.take(i as int)[k]
                    == w;
                assert(wv[k] == w);
            }
            assert forall|w: Seq<char>| seen_upto(wv, i as int, w) implies has_word(
                wv.take(i as int),
                w,
            ) by {
                let k = choose|k: int| 0 <= k < i && k < wv.len() && wv[k] == w;
                assert(wv.take(i as int)[k] == w);
            }
        }
        let seen = pair_seen(&pairs, &words[i]);
        proof {
            assert(seen == pair_has(pairs@, wv[i as int]));
            assert(pair_has(pairs@, wv[i as int]) <==> seen_upto(wv, i as int, wv[i as int]));
            assert(seen == has_word(wv.take(i as int), wv[i as int]));
        }
        if !seen {
            let w = words[i].clone();
            let c = count_occurrences(words, &w);
            let ghost pairs_pre = pairs@;
            pairs.push((w, c));
            proof {
                assert(pairs@.len() == pairs_pre.len() + 1);
                assert(pairs@[pairs@.len() - 1].0@ == wv[i as int]);
                assert forall|w2: Seq<char>| seen_upto(wv, i + 1 as int, w2) implies pair_has(
                    pairs@,
                    w2,
                ) by {
                    let k = choose|k: int| 0 <= k < i + 1 && k < wv.len() && wv[k] == w2;
                    if k < i {
                        assert(seen_upto(wv, i as int, w2));
                        assert(pair_has(pairs_pre, w2));
                        let t = choose|t: int| 0 <= t < pairs_pre.len() && pairs_pre[t].0@ == w2;
                        assert(pairs@[t].0@ == w2);
                    } else {
                        assert(pairs@[pairs@.len() - 1].0@ == w2);
                    }
                }
                assert forall|w2: Seq<char>| pair_has(pairs@, w2) implies seen_upto(
                    wv,
                    i + 1 as int,
                    w2,
                ) by {
                    let t = choose|t: int| 0 <= t < pairs@.len() && pairs@[t].0@ == w2;
                    if t < pairs_pre.len() {
                        assert(pairs_pre[t].0@ == w2);
                        assert(seen_upto(wv, i as int, w2));
                        let k = choose|k: int| 0 <= k < i && k < wv.len() && wv[k] == w2;
                        assert(0 <= k < i + 1 && wv[k] == w2);
                    } else {
                        assert(wv[i as int] == w2);
                    }
                }
            }
        } else {
            proof {
                assert forall|w2: Seq<char>| seen_upto(wv, i + 1 as int, w2) implies pair_has(
                    pairs@,
                    w2,
                ) by {
                    let k = choose|k: int| 0 <= k < i + 1 && k < wv.len() && wv[k] == w2;
                    if k == i {
                        assert(seen_upto(wv, i as int, wv[i as int]));
                    } else {
                        assert(seen_upto(wv, i as int, w2));
                    }
                }
                assert forall|w2: Seq<char>| pair_has(pairs@, w2) implies seen_upto(
                    wv,
                    i + 1 as int,
                    w2,
                ) by {
                    assert(seen_upto(wv, i as int, w2));
                    let k = choose|k: int| 0 <= k < i && k < wv.len() && wv[k] == w2;
                    assert(0 <= k < i + 1 && wv[k] == w2);
                }
            }
        }
        i = i + 1;
    }
    proof {
        assert(wv.take(n as int) =~= wv);
        assert forall|w: Seq<char>| has_word(wv, w) implies pair_has(pairs@, w) by {
            let k = choose|k: int| 0 <= k < wv.len() && wv[k] == w;
            assert(seen_upto(wv, n as int, w));
        }
    }
    pairs
}

/// The `n` most frequent words, most frequent first; ties keep first-seen
/// order.
pub fn top_words(words: &Vec<&str>, n: usize) -> (r: Vec<String>)
    ensures
        top_words_ok(words.deep_view(), n as int, r.deep_view()),
{
    let mut owned: Vec<String> = Vec::new();
    let m: usize = words.len();
    let mut i: usize = 0;
    while i < m
        invariant
            m == words@.len(),
            0 <= i <= m,
            owned@.len() == i,
            forall|j: int| 0 <= j < i ==> (#[trigger] owned@[j])@ == words@[j]@,
        decreases m - i,
    {
        owned.push(String::from_str(words[i]));
        i = i + 1;
    }
    proof {
        assert(owned.deep_view() =~= words.deep_view());
    }
    top_words_owned(&owned, n)
}

/// The `n` most frequent of the given words.
pub fn top_words_owned(words: &Vec<String>, n: usize) -> (r: Vec<String>)
    ensures
        top_words_ok(words.deep_view(), n as int, r.deep_view()),
{
    let ghost wv = words.deep_view();
    let mut remaining: Vec<(String, usize)> = count_pairs(words);
    let ghost dc = distinct_count(wv);
    let mut sorted: Vec<(String, usize)> = Vec::new();
    while remaining.len() > 0
        invariant
            wv == words.deep_view(),
            sorted@.len() + remaining@.len() == dc,
            dc == distinct_count(wv),
            forall|k: int, l: int|
                0 <= k <= l < sorted@.len() ==> (#[trigger] sorted@[k]).1 >= (#[trigger]
                sorted@[l]).1,
            forall|k: int, l: int|
                0 <= k < sorted@.len() && 0 <= l < remaining@.len() ==> (#[trigger] sorted@[k]).1
                    >= (#[trigger] remaining@[l]).1,
            forall|k: int, l: int|
                0 <= k < l < sorted@.len() ==> (#[trigger] sorted@[k]).0@ != (#[trigger]
                sorted@[l]).0@,
            forall|k: int, l: int|
                0 <= k < l < remaining@.len() ==> (#[trigger] remaining@[k]).0@ != (#[trigger]
                remaining@[l]).0@,
            forall|k: int, l: int|
                0 <= k < sorted@.len() && 0 <= l < remaining@.len() ==> (#[trigger] sorted@[k]).0@
                    != (#[trigger] remaining@[l]).0@,
            forall|k: int| 0 <= k < sorted@.len() ==> has_word(wv, (#[trigger] sorted@[k]).0@),
            forall|k: int| 0 <= k < remaining@.len() ==> has_word(wv, (#[trigger] remaining@[k]).0@),
            forall|k: int|
                0 <= k < sorted@.len() ==> (#[trigger] sorted@[k]).1 == count_of(wv, sorted@[k].0@),
            forall|k: int|
                0 <= k < remaining@.len() ==> (#[trigger] remaining@[k]).1 == count_of(
                    wv,
                    remaining@[k].0@,
                ),
            forall|w: Seq<char>|
                #[trigger] has_word(wv, w) ==> pair_has(sorted@, w) || pair_has(remaining@, w),
        decreases remaining@.len(),
    {
        let rl: usize = remaining.len();
        let mut best: usize = 0;
        let mut j: usize = 1;
        while j < rl
            invariant
                rl == remaining@.len(),
                rl > 0,
                0 <= best < j <= rl || (j <= 1 && best == 0 && j <= rl),
                best < rl,
                0 <= j <= rl,
                forall|t: int| 0 <= t < j ==> (#[trigger] remaining@[t]).1 <= remaining@[
                    best as int].1,
            decreases rl - j,
        {
            if remaining[j].1 > remaining[best].1 {
                best = j;
            }
            j = j + 1;
        }
        let ghost rem_pre = remaining@;
        let ghost sorted_pre = sorted@;
        let item = remaining.remove(best);
        sorted.push(item);
        proof {
            assert(sorted@ =~= sorted_pre.push(rem_pre[best as int]));
            assert forall|l: int| 0 <= l < remaining@.len() implies (#[trigger] remaining@[l]) == (
            if l < best {
                rem_pre[l]
            } else {
                rem_pre[l + 1]
            }) by {
                if l < best {
                    assert(rem_pre[l] == remaining@[l]);
                } else {
                    assert(rem_pre[l + 1] == remaining@[l]);
                }
            }
            assert forall|w: Seq<char>| has_word(wv, w) implies pair_has(sorted@, w) || pair_has(
                remaining@,
                w,
            ) by {
                if pair_has(rem_pre, w) {
                    let t = choose|t: int| 0 <= t < rem_pre.len() && rem_pre[t].0@ == w;
                    if t == best {
                        assert(sorted@[sorted@.len() - 1].0@ == w);
                    } else if t < best {
                        assert(remaining@[t] == rem_pre[t]);
                        assert(remaining@[t].0@ == w);
                    } else {
                        assert(remaining@[t - 1] == rem_pre[t]);
                        assert(remaining@[t - 1].0@ == w);
                    }
                } else {
                    assert(pair_has(sorted_pre, w));
                    let t = choose|t: int| 0 <= t < sorted_pre.len() && sorted_pre[t].0@ == w;
                    assert(sorted@[t].0@ == w);
                }
            }
        }
    }
    let keep: usize = if n <= sorted.len() {
        n
    } else {
        sorted.len()
    };
    let mut out: Vec<String> = Vec::new();
    let mut k: usize = 0;
    while k < keep
        invariant
            keep <= sorted@.len(),
            0 <= k <= keep,
            out@.len() == k,
            forall|t: int| 0 <= t < k ==> (#[trigger] out@[t])@ == sorted@[t].0@,
        decreases keep - k,
    {
        out.push(sorted[k].0.clone());
        k = k + 1;
    }
    proof {
        let rv = out.deep_view();
        assert forall|t: int| 0 <= t < rv.len() implies rv[t] == sorted@[t].0@ by {
            assert(out@[t]@ == sorted@[t].0@);
        }
        assert forall|w: Seq<char>| has_word(wv, w) && !has_word(rv, w) implies rv.len() == 0
            || count_of(wv, w) <= count_of(wv, rv[rv.len() - 1]) by {
            if rv.len() > 0 {
                assert(pair_has(sorted@, w));
                let t = choose|t: int| 0 <= t < sorted@.len() && sorted@[t].0@ == w;
                if t < rv.len() {
                    assert(rv[t] == w);
                } else {
                    assert(sorted@[rv.len() - 1].1 >= sorted@[t].1);
                }
            }
        }
        assert(rv.len() == min(n as int, dc as int));
    }
    out
}

/// Statistics of one text: word counts, the ten most frequent words, the
/// average word length, and the longest word.
pub fn analyze_text(content: &str) -> (stats: TextStats)
    requires
        split_ws(content@).len() > 0,
        total_word_bytes(split_ws(content@)) <= usize::MAX,
    ensures
        stats.total_words == split_ws(content@).len(),
        stats.unique_words == distinct_count(split_ws(content@)),
        top_words_ok(split_ws(content@), 10, stats.top_words.deep_view()),
        stats.avg_word_length == total_word_bytes(split_ws(content@)) as int / split_ws(
            content@,
        ).len() as int,
        stats.longest_word@ == split_ws(content@)[longest_idx(split_ws(content@))],
{
    let ghost wsv = split_ws(content@);
    let words: Vec<String> = split_words(content);
    let total_words: usize = words.len();
    proof {
        assert(words.deep_view().len() == words@.len());
    }

    let mut unique_words: usize = 0;
    let n: usize = words.len();
    let mut i: usize = 0;
    while i < n
        invariant
            n == words@.len(),
            wsv == words.deep_view(),
            wsv.len() == n,
            0 <= i <= n,
            unique_words == distinct_count(wsv.take(i as int)),
            unique_words <= i,
        decreases n - i,
    {
        proof {
            assert(wsv[i as int] == words@[i as int]@);
            assert(wsv.take(i + 1 as int).drop_last() =~= wsv.take(i as int));
            assert(wsv.take(i + 1 as int).last() == wsv[i as int]);
            assert forall|w: Seq<char>| has_word(wsv.take(i as int), w) implies seen_upto(
                wsv,
                i as int,
                w,
            ) by {
                let k = choose|k: int| 0 <= k < wsv.take(i as int).len() && wsv.take(i as int)[k]
                    == w;
                assert(wsv[k] == w);
            }
            assert forall|w: Seq<char>| seen_upto(wsv, i as int, w) implies has_word(
                wsv.take(i as int),
                w,
            ) by {
                let k = choose|k: int| 0 <= k < i && k < wsv.len() && wsv[k] == w;
                assert(wsv.take(i as int)[k] == w);
            }
        }
        let seen = word_seen(&words, i, &words[i]);
        if !seen {
            unique_words = unique_words + 1;
        }
        i = i + 1;
    }
    proof {
        assert(wsv.take(n as int) =~= wsv);
    }

    let top = top_words_owned(&words, 10);

    let mut sum: usize = 0;
    let mut k: usize = 0;
    while k < n
        invariant
            n == words@.len(),
            wsv == words.deep_view(),
            wsv.len() == n,
            0 <= k <= n,
            total_word_bytes(wsv) <= usize::MAX,
            sum == total_word_bytes(wsv.take(k as int)),
        decreases n - k,
    {
        proof {
            assert(wsv[k as int] == words@[k as int]@);
            assert(wsv.take(k + 1 as int).drop_last() =~= wsv.take(k as int));
            assert(wsv.take(k + 1 as int).last() == wsv[k as int]);
            lemma_word_bytes_le_total(wsv, k as int);
            lemma_total_bytes_prefix(wsv, k + 1);
        }
        let l: usize = words[k].as_str().len();
        proof {
            assert(l == word_bytes(wsv[k as int]));
        }
        sum = sum + l;
        k = k + 1;
    }
    proof {
        assert(wsv.take(n as int) =~= wsv);
    }
    let avg_word_length: usize = sum / total_words;

    let mut best: usize = 0;
    let mut t: usize = 1;
    while t < n
        invariant
            n == words@.len(),
            wsv == words.deep_view(),
            wsv.len() == n,
            n > 0,
            best < n,
            1 <= t <= n || (t == 1 && n >= 1),
            0 <= t,
            total_word_bytes(wsv) <= usize::MAX,
            t <= n ==> best == longest_idx(wsv.take(t as int)),
        decreases n - t,
    {
        proof {
            assert(wsv[t as int] == words@[t as int]@);
            assert(wsv.take(t + 1 as int).drop_last() =~= wsv.take(t as int));
            assert(wsv.take(t + 1 as int).last() == wsv[t as int]);
            lemma_longest_idx_in_range(wsv.take(t as int));
            assert(wsv.take(t as int)[longest_idx(wsv.take(t as int))] == wsv[longest_idx(
                wsv.take(t as int),
            )]);
            lemma_word_bytes_le_total(wsv, t as int);
            lemma_word_bytes_le_total(wsv, best as int);
        }
        let lt: usize = words[t].as_str().len();
        let lb: usize = words[best].as_str().len();
        proof {
            assert(lt == word_bytes(wsv[t as int]));
            assert(lb == word_bytes(wsv[best as int]));
        }
        if lt >= lb {
            best = t;
        }
        t = t + 1;
    }
    proof {
        assert(wsv.take(n as int) =~= wsv);
        if n == 1 {
            assert(longest_idx(wsv) == 0);
        }
        assert(wsv[best as int] == words@[best as int]@);
    }
    let longest_word: String = words[best].clone();

    TextStats { total_words, unique_words, top_words: top, avg_word_length, longest_word }
}

} // verus!
