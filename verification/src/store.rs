//! Idempotent create-or-merge persistence for market records and tags.
//!
//! A `MarketStore` mirrors the relational schema: a `markets` table keyed
//! by condition identifier, a `tags` table keyed by the service's tag
//! identifier, and a join table with one row per (market, tag) pair. All
//! writes merge rather than overwrite: a field once filled from metadata
//! is never regressed to null, and repeating a write changes nothing.

use vstd::prelude::*;
use vstd::pervasive::VecAdditionalExecFns;
use crate::dedup::contains_id;
use crate::events::{EventV, TokenRegistered};
use crate::market::{MarketMetadata, MetadataV, Tag, TagV};
use crate::util::{bytes_eq, clone_bytes};

verus! {

/// One durable market record: the immutable on-chain fields set at first
/// insert, the nullable metadata fields filled monotonically, and the
/// bookkeeping timestamps (milliseconds since the Unix epoch).
pub struct Market {
    /// Condition identifier, the unique 32-byte key.
    pub condition_id: Vec<u8>,
    /// First outcome token identifier, 32 bytes.
    pub token0: Vec<u8>,
    /// Second outcome token identifier, 32 bytes.
    pub token1: Vec<u8>,
    /// Block where the registration was emitted.
    pub block_number: u64,
    /// Hash of the registering transaction, 32 bytes.
    pub tx_hash: Vec<u8>,
    /// Market question text, null until enriched.
    pub question: Option<String>,
    /// URL-friendly slug, null until enriched.
    pub slug: Option<String>,
    /// Outcome labels, null until enriched.
    pub outcomes: Option<Vec<String>>,
    /// Market start date, ISO 8601 text.
    pub start_date: Option<String>,
    /// Market end date, ISO 8601 text.
    pub end_date: Option<String>,
    /// When this record was created.
    pub created_at: i64,
    /// When this record was last written.
    pub updated_at: i64,
    /// When metadata first arrived; null while enrichment is pending.
    pub metadata_fetched_at: Option<i64>,
}

/// Mathematical image of a `Market` record.
#[verifier::ext_equal]
pub ghost struct MarketV {
    pub condition_id: Seq<u8>,
    pub token0: Seq<u8>,
    pub token1: Seq<u8>,
    pub block_number: u64,
    pub tx_hash: Seq<u8>,
    pub question: Option<Seq<char>>,
    pub slug: Option<Seq<char>>,
    pub outcomes: Option<Seq<Seq<char>>>,
    pub start_date: Option<Seq<char>>,
    pub end_date: Option<Seq<char>>,
    pub created_at: i64,
    pub updated_at: i64,
    pub metadata_fetched_at: Option<i64>,
}

impl View for Market {
    type V = MarketV;

    open spec fn view(&self) -> MarketV {
        MarketV {
            condition_id: self.condition_id@,
            token0: self.token0@,
            token1: self.token1@,
            block_number: self.block_number,
            tx_hash: self.tx_hash@,
            question: self.question.deep_view(),
            slug: self.slug.deep_view(),
            outcomes: self.outcomes.deep_view(),
            start_date: self.start_date.deep_view(),
            end_date: self.end_date.deep_view(),
            created_at: self.created_at,
            updated_at: self.updated_at,
            metadata_fetched_at: self.metadata_fetched_at,
        }
    }
}

impl DeepView for Market {
    type V = MarketV;

    open spec fn deep_view(&self) -> MarketV {
        self.view()
    }
}

/// One row of the market-tag join table.
pub struct MarketTag {
    /// Condition identifier of the market side.
    pub condition_id: Vec<u8>,
    /// Tag identifier of the tag side.
    pub tag_id: String,
}

/// Mathematical image of a join row.
#[verifier::ext_equal]
pub ghost struct MarketTagV {
    pub condition_id: Seq<u8>,
    pub tag_id: Seq<char>,
}

impl View for MarketTag {
    type V = MarketTagV;

    open spec fn view(&self) -> MarketTagV {
        MarketTagV { condition_id: self.condition_id@, tag_id: self.tag_id@ }
    }
}

impl DeepView for MarketTag {
    type V = MarketTagV;

    open spec fn deep_view(&self) -> MarketTagV {
        self.view()
    }
}

/// Mathematical image of the whole store.
#[verifier::ext_equal]
pub ghost struct StoreV {
    pub markets: Seq<MarketV>,
    pub tags: Seq<TagV>,
    pub joins: Seq<MarketTagV>,
}

/// The durable store: three in-memory tables with merge-on-conflict
/// write semantics.
pub struct MarketStore {
    markets: Vec<Market>,
    tags: Vec<Tag>,
    joins: Vec<MarketTag>,
}

impl View for MarketStore {
    type V = StoreV;

    closed spec fn view(&self) -> StoreV {
        StoreV {
            markets: self.markets.deep_view(),
            tags: self.tags.deep_view(),
            joins: self.joins.deep_view(),
        }
    }
}

/// Index of the first record of `s` keyed by `id`, or `-1` when none is.
pub open spec fn find_id(s: Seq<MarketV>, id: Seq<u8>) -> int
    decreases s.len(),
{
    if s.len() == 0 {
        -1
    } else if s.first().condition_id == id {
        0
    } else {
        let r = find_id(s.drop_first(), id);
        if r < 0 {
            -1
        } else {
            r + 1
        }
    }
}

/// What `find_id` returns: the first matching index, if any.
pub proof fn lemma_find_id(s: Seq<MarketV>, id: Seq<u8>)
    ensures
        find_id(s, id) == -1 || (0 <= find_id(s, id) < s.len()),
        find_id(s, id) == -1 ==> forall|i: int|
            0 <= i < s.len() ==> s[i].condition_id != id,
        find_id(s, id) >= 0 ==> s[find_id(s, id)].condition_id == id,
        find_id(s, id) >= 0 ==> forall|i: int|
            0 <= i < find_id(s, id) ==> s[i].condition_id != id,
    decreases s.len(),
{
    if s.len() > 0 && s.first().condition_id != id {
        lemma_find_id(s.drop_first(), id);
        assert forall|i: int| 1 <= i < s.len() implies s[i] == s.drop_first()[i - 1] by {}
    }
}

/// The first matching index determines `find_id`.
pub proof fn lemma_find_id_at(s: Seq<MarketV>, id: Seq<u8>, k: int)
    requires
        0 <= k < s.len(),
        s[k].condition_id == id,
        forall|i: int| 0 <= i < k ==> s[i].condition_id != id,
    ensures
        find_id(s, id) == k,
    decreases s.len(),
{
    if k > 0 {
        assert(s[0] == s.first());
        assert forall|i: int| 1 <= i < s.len() implies s[i] == s.drop_first()[i - 1] by {}
        lemma_find_id_at(s.drop_first(), id, k - 1);
    }
}

/// A record after merging metadata into it: supplied fields win, absent
/// fields keep their stored value, and the fetched timestamp is set only
/// the first time metadata arrives.
pub open spec fn merged(r: MarketV, m: Option<MetadataV>, now: i64) -> MarketV {
    match m {
        None => MarketV { updated_at: now, ..r },
        Some(md) => MarketV {
            question: Some(md.question),
            slug: Some(md.slug),
            outcomes: Some(md.outcomes),
            start_date: if md.start_date is Some {
                md.start_date
            } else {
                r.start_date
            },
            end_date: if md.end_date is Some {
                md.end_date
            } else {
                r.end_date
            },
            metadata_fetched_at: if r.metadata_fetched_at is Some {
                r.metadata_fetched_at
            } else {
                Some(now)
            },
            updated_at: now,
            ..r
        },
    }
}

/// The record a first insert creates for an event, with whatever metadata
/// accompanied it.
pub open spec fn new_record(e: EventV, m: Option<MetadataV>, now: i64) -> MarketV {
    MarketV {
        condition_id: e.condition_id,
        token0: e.token0,
        token1: e.token1,
        block_number: e.block_number,
        tx_hash: e.tx_hash,
        question: match m {
            Some(md) => Some(md.question),
            None => None,
        },
        slug: match m {
            Some(md) => Some(md.slug),
            None => None,
        },
        outcomes: match m {
            Some(md) => Some(md.outcomes),
            None => None,
        },
        start_date: match m {
            Some(md) => md.start_date,
            None => None,
        },
        end_date: match m {
            Some(md) => md.end_date,
            None => None,
        },
        created_at: now,
        updated_at: now,
        metadata_fetched_at: if m is Some {
            Some(now)
        } else {
            None
        },
    }
}

/// What one upsert does to the markets table: merge into the record that
/// carries the event's condition identifier, or append a fresh record when
/// none does.
pub open spec fn upsert_seq(s: Seq<MarketV>, e: EventV, m: Option<MetadataV>, now: i64) -> Seq<
    MarketV,
> {
    let idx = find_id(s, e.condition_id);
    if idx >= 0 {
        s.update(idx, merged(s[idx], m, now))
    } else {
        s.push(new_record(e, m, now))
    }
}

/// Image of an optional borrowed metadata argument.
pub open spec fn metadata_view(m: Option<&MarketMetadata>) -> Option<MetadataV> {
    match m {
        Some(x) => Some(x@),
        None => None,
    }
}

fn clone_opt_string(o: &Option<String>) -> (r: Option<String>)
    ensures
        r.deep_view() == o.deep_view(),
{
    match o {
        Some(s) => Some(s.clone()),
        None => None,
    }
}

fn clone_strings(v: &Vec<String>) -> (r: Vec<String>)
    ensures
        r.deep_view() == v.deep_view(),
{
    let mut out: Vec<String> = Vec::new();
    let n: usize = v.len();
    let mut i: usize = 0;
    while i < n
        invariant
            n == v@.len(),
            0 <= i <= n,
            out@.len() == i,
            forall|j: int| 0 <= j < i ==> out@[j]@ == v@[j]@,
        decreases n - i,
    {
        let c = v[i].clone();
        out.push(c);
        i = i + 1;
    }
    assert(out.deep_view() =~= v.deep_view());
    out
}

fn clone_opt_strings(o: &Option<Vec<String>>) -> (r: Option<Vec<String>>)
    ensures
        r.deep_view() == o.deep_view(),
{
    match o {
        Some(v) => Some(clone_strings(v)),
        None => None,
    }
}

fn clone_market(r: &Market) -> (out: Market)
    ensures
        out@ == r@,
{
    let out = Market {
        condition_id: clone_bytes(&r.condition_id),
        token0: clone_bytes(&r.token0),
        token1: clone_bytes(&r.token1),
        block_number: r.block_number,
        tx_hash: clone_bytes(&r.tx_hash),
        question: clone_opt_string(&r.question),
        slug: clone_opt_string(&r.slug),
        outcomes: clone_opt_strings(&r.outcomes),
        start_date: clone_opt_string(&r.start_date),
        end_date: clone_opt_string(&r.end_date),
        created_at: r.created_at,
        updated_at: r.updated_at,
        metadata_fetched_at: r.metadata_fetched_at,
    };
    assert(out@ =~= r@);
    out
}

fn merge_record(r: &Market, m: Option<&MarketMetadata>, now: i64) -> (out: Market)
    ensures
        out@ == merged(r@, metadata_view(m), now),
{
    match m {
        None => {
            let mut out = clone_market(r);
            out.updated_at = now;
            assert(out@ =~= merged(r@, metadata_view(m), now));
            out
        },
        Some(md) => {
            let out = Market {
                condition_id: clone_bytes(&r.condition_id),
                token0: clone_bytes(&r.token0),
                token1: clone_bytes(&r.token1),
                block_number: r.block_number,
                tx_hash: clone_bytes(&r.tx_hash),
                question: Some(md.question.clone()),
                slug: Some(md.slug.clone()),
                outcomes: Some(clone_strings(&md.outcomes)),
                start_date: match &md.start_date {
                    Some(s) => Some(s.clone()),
                    None => clone_opt_string(&r.start_date),
                },
                end_date: match &md.end_date {
                    Some(s) => Some(s.clone()),
                    None => clone_opt_string(&r.end_date),
                },
                created_at: r.created_at,
                updated_at: now,
                metadata_fetched_at: match r.metadata_fetched_at {
                    Some(t) => Some(t),
                    None => Some(now),
                },
            };
            assert(out@ =~= merged(r@, metadata_view(m), now));
            out
        },
    }
}

fn fresh_record(e: &TokenRegistered, m: Option<&MarketMetadata>, now: i64) -> (out: Market)
    ensures
        out@ == new_record(e@, metadata_view(m), now),
{
    let out = Market {
        condition_id: clone_bytes(&e.condition_id),
        token0: clone_bytes(&e.token0),
        token1: clone_bytes(&e.token1),
        block_number: e.block_number,
        tx_hash: clone_bytes(&e.tx_hash),
        question: match m {
            Some(md) => Some(md.question.clone()),
            None => None,
        },
        slug: match m {
            Some(md) => Some(md.slug.clone()),
            None => None,
        },
        outcomes: match m {
            Some(md) => Some(clone_strings(&md.outcomes)),
            None => None,
        },
        start_date: match m {
            Some(md) => clone_opt_string(&md.start_date),
            None => None,
        },
        end_date: match m {
            Some(md) => clone_opt_string(&md.end_date),
            None => None,
        },
        created_at: now,
        updated_at: now,
        metadata_fetched_at: match m {
            Some(_) => Some(now),
            None => None,
        },
    };
    assert(out@ =~= new_record(e@, metadata_view(m), now));
    out
}

impl MarketStore {
    /// An empty store.
    pub fn new() -> (r: MarketStore)
        ensures
            r@.markets.len() == 0,
            r@.tags.len() == 0,
            r@.joins.len() == 0,
    {
        MarketStore { markets: Vec::new(), tags: Vec::new(), joins: Vec::new() }
    }

    fn find_market(&self, id: &Vec<u8>) -> (r: Option<usize>)
        ensures
            r is Some <==> find_id(self@.markets, id@) >= 0,
            r matches Some(i) ==> i == find_id(self@.markets, id@),
    {
        let ghost s = self@.markets;
        let n: usize = self.markets.len();
        let mut i: usize = 0;
        while i < n
            invariant
                n == self.markets@.len(),
                s == self@.markets,
                s.len() == n,
                0 <= i <= n,
                forall|j: int| 0 <= j < i ==> s[j].condition_id != id@,
            decreases n - i,
        {
            proof {
                assert(s[i as int] == self.markets@[i as int]@);
            }
            if bytes_eq(&self.markets[i].condition_id, id) {
                proof {
                    lemma_find_id_at(s, id@, i as int);
                }
                return Some(i);
            }
            i = i + 1;
        }
        proof {
            lemma_find_id(s, id@);
            if find_id(s, id@) >= 0 {
                assert(s[find_id(s, id@)].condition_id == id@);
            }
        }
        None
    }

    /// Inserts a record for the event when its condition identifier is
    /// new, else merges the metadata into the existing record, exactly as
    /// `upsert_seq` describes. Safe to repeat with identical inputs.
    pub fn upsert_market(
        &mut self,
        event: &TokenRegistered,
        metadata: Option<&MarketMetadata>,
        now: i64,
    )
        ensures
            final(self)@.markets == upsert_seq(
                old(self)@.markets,
                event@,
                metadata_view(metadata),
                now,
            ),
            final(self)@.tags == old(self)@.tags,
            final(self)@.joins == old(self)@.joins,
    {
        let found = self.find_market(&event.condition_id);
        proof {
            lemma_find_id(self@.markets, event.condition_id@);
        }
        match found {
            Some(i) => {
                let updated = merge_record(&self.markets[i], metadata, now);
                proof {
                    assert(self.markets@[i as int]@ == self@.markets[i as int]);
                }
                self.markets.set(i, updated);
                proof {
                    assert(self@.markets =~= upsert_seq(
                        old(self)@.markets,
                        event@,
                        metadata_view(metadata),
                        now,
                    ));
                }
            },
            None => {
                let rec = fresh_record(event, metadata, now);
                self.markets.push(rec);
                proof {
                    assert(self@.markets =~= upsert_seq(
                        old(self)@.markets,
                        event@,
                        metadata_view(metadata),
                        now,
                    ));
                }
            },
        }
    }

    /// The stored record keyed by `condition_id`, when one exists.
    pub fn get_market_by_condition_id(&self, condition_id: &Vec<u8>) -> (r: Option<&Market>)
        ensures
            r is Some <==> find_id(self@.markets, condition_id@) >= 0,
            r matches Some(mkt) ==> mkt@ == self@.markets[find_id(self@.markets, condition_id@)],
    {
        let found = self.find_market(condition_id);
        proof {
            lemma_find_id(self@.markets, condition_id@);
        }
        match found {
            Some(i) => {
                proof {
                    assert(self.markets@[i as int]@ == self@.markets[i as int]);
                }
                Some(&self.markets[i])
            },
            None => None,
        }
    }

    /// How many market records the store holds.
    pub fn count_markets(&self) -> (r: usize)
        ensures
            r == self@.markets.len(),
    {
        self.markets.len()
    }

    /// At most `limit` records still awaiting metadata, oldest created
    /// first (records are kept in creation order).
    pub fn get_markets_without_metadata(&self, limit: usize) -> (r: Vec<Market>)
        ensures
            r.deep_view() == missing_metadata(self@.markets).take(
                vstd::math::min(limit as int, missing_metadata(self@.markets).len() as int),
            ),
    {
        let ghost s = self@.markets;
        let mut out: Vec<Market> = Vec::new();
        let n: usize = self.markets.len();
        let mut i: usize = 0;
        while i < n
            invariant
                n == self.markets@.len(),
                s == self@.markets,
                s.len() == n,
                0 <= i <= n,
                out.deep_view() == missing_metadata(s.take(i as int)),
            decreases n - i,
        {
            proof {
                assert(s[i as int] == self.markets@[i as int]@);
                assert(s.take(i + 1 as int).drop_last() =~= s.take(i as int));
                assert(s.take(i + 1 as int).last() == s[i as int]);
            }
            if self.markets[i].metadata_fetched_at.is_none() {
                let rec = clone_market(&self.markets[i]);
                out.push(rec);
                proof {
                    assert(out.deep_view() =~= missing_metadata(s.take(i + 1 as int)));
                }
            }
            i = i + 1;
        }
        proof {
            assert(s.take(n as int) =~= s);
        }
        let missing_count: usize = out.len();
        out.truncate(limit);
        proof {
            let all = missing_metadata(s);
            let keep = vstd::math::min(limit as int, all.len() as int);
            if limit as int <= all.len() {
                assert(out.deep_view() =~= all.take(keep));
            } else {
                assert(all.take(keep) =~= all);
            }
        }
        out
    }

    /// Upserts each tag row (supplied label and slug win over stored
    /// nulls) and adds any missing join rows for this market, exactly as
    /// `insert_tags_seq` describes. Tolerates the tag or the join already
    /// existing.
    pub fn insert_market_tags(&mut self, condition_id: &Vec<u8>, tags: &Vec<Tag>)
        ensures
            final(self)@.markets == old(self)@.markets,
            final(self)@.tags == insert_tags_seq(
                old(self)@.tags,
                old(self)@.joins,
                condition_id@,
                tags.deep_view(),
            ).0,
            final(self)@.joins == insert_tags_seq(
                old(self)@.tags,
                old(self)@.joins,
                condition_id@,
                tags.deep_view(),
            ).1,
    {
        let ghost tv = tags.deep_view();
        let ghost ts0 = self@.tags;
        let ghost js0 = self@.joins;
        proof {
            assert(tv.skip(0) =~= tv);
        }
        let n: usize = tags.len();
        let mut i: usize = 0;
        while i < n
            invariant
                n == tags@.len(),
                tv == tags.deep_view(),
                tv.len() == n,
                0 <= i <= n,
                self@.markets == old(self)@.markets,
                insert_tags_seq(self@.tags, self@.joins, condition_id@, tv.skip(i as int)) == (
                insert_tags_seq(ts0, js0, condition_id@, tv)),
            decreases n - i,
        {
            let ghost ts_cur = self@.tags;
            let ghost js_cur = self@.joins;
            proof {
                assert(tv[i as int] == tags@[i as int]@);
                assert(tv.skip(i as int).first() == tv[i as int]);
                assert(tv.skip(i as int).drop_first() =~= tv.skip(i + 1 as int));
            }
            let t = &tags[i];
            let found = find_tag_idx(&self.tags, &t.id);
            proof {
                lemma_find_tag(ts_cur, t.id@);
            }
            match found {
                Some(k) => {
                    let m = merge_tag(&self.tags[k], t);
                    proof {
                        assert(self.tags@[k as int]@ == ts_cur[k as int]);
                    }
                    self.tags.set(k, m);
                },
                None => {
                    self.tags.push(clone_tag(t));
                },
            }
            proof {
                assert(self@.tags =~= upsert_tag(ts_cur, tv[i as int]));
            }
            let ghost jrow = MarketTagV { condition_id: condition_id@, tag_id: tv[i as int].id };
            if !self.has_join(condition_id, &t.id) {
                let row = MarketTag {
                    condition_id: clone_bytes(condition_id),
                    tag_id: t.id.clone(),
                };
                self.joins.push(row);
                proof {
                    assert(self@.joins =~= add_join(js_cur, jrow));
                }
            } else {
                proof {
                    assert(self@.joins =~= add_join(js_cur, jrow));
                }
            }
            i = i + 1;
        }
        proof {
            assert(tv.skip(n as int) =~= Seq::<TagV>::empty());
        }
    }

    fn has_join(&self, condition_id: &Vec<u8>, tag_id: &String) -> (r: bool)
        ensures
            r == contains_join(
                self@.joins,
                MarketTagV { condition_id: condition_id@, tag_id: tag_id@ },
            ),
    {
        let ghost js = self@.joins;
        let ghost want = MarketTagV { condition_id: condition_id@, tag_id: tag_id@ };
        let n: usize = self.joins.len();
        let mut i: usize = 0;
        while i < n
            invariant
                n == self.joins@.len(),
                js == self@.joins,
                js.len() == n,
                want == (MarketTagV { condition_id: condition_id@, tag_id: tag_id@ }),
                0 <= i <= n,
                forall|j: int| 0 <= j < i ==> js[j] != want,
            decreases n - i,
        {
            proof {
                assert(js[i as int] == self.joins@[i as int]@);
            }
            if bytes_eq(&self.joins[i].condition_id, condition_id) && self.joins[i].tag_id
                == *tag_id {
                proof {
                    assert(js[i as int].condition_id == want.condition_id);
                    assert(js[i as int].tag_id == want.tag_id);
                    assert(js[i as int] == want);
                }
                return true;
            }
            proof {
                if js[i as int] == want {
                    assert(js[i as int].condition_id == want.condition_id);
                    assert(js[i as int].tag_id == want.tag_id);
                    assert(false);
                }
            }
            i = i + 1;
        }
        false
    }

    /// The tags joined to `condition_id`, ordered by label with absent
    /// labels last (equal labels keep join order), exactly as
    /// `sort_by_label` of `tags_for` describes.
    pub fn get_tags_for_market(&self, condition_id: &Vec<u8>) -> (r: Vec<Tag>)
        ensures
            r.deep_view() == sort_by_label(tags_for(self@.tags, self@.joins, condition_id@)),
    {
        let ghost ts = self@.tags;
        let ghost js = self@.joins;
        let mut joined: Vec<Tag> = Vec::new();
        let n: usize = self.joins.len();
        let mut i: usize = 0;
        while i < n
            invariant
                n == self.joins@.len(),
                ts == self@.tags,
                js == self@.joins,
                js.len() == n,
                0 <= i <= n,
                joined.deep_view() == tags_for(ts, js.take(i as int), condition_id@),
            decreases n - i,
        {
            proof {
                assert(js[i as int] == self.joins@[i as int]@);
                assert(js.take(i + 1 as int).drop_last() =~= js.take(i as int));
                assert(js.take(i + 1 as int).last() == js[i as int]);
            }
            if bytes_eq(&self.joins[i].condition_id, condition_id) {
                let found = find_tag_idx(&self.tags, &self.joins[i].tag_id);
                proof {
                    lemma_find_tag(ts, js[i as int].tag_id);
                }
                match found {
                    Some(k) => {
                        proof {
                            assert(self.tags@[k as int]@ == ts[k as int]);
                        }
                        let tag = clone_tag(&self.tags[k]);
                        joined.push(tag);
                    },
                    None => {
                    },
                }
            }
            proof {
                assert(joined.deep_view() =~= tags_for(ts, js.take(i + 1 as int), condition_id@));
            }
            i = i + 1;
        }
        proof {
            assert(js.take(n as int) =~= js);
        }
        sort_tags_by_label(joined)
    }

    /// Upserts with the current wall clock as the write timestamp.
    pub fn upsert_market_now(&mut self, event: &TokenRegistered, metadata: Option<&MarketMetadata>)
        ensures
            exists|t: i64|
                final(self)@.markets == #[trigger] upsert_seq(
                    old(self)@.markets,
                    event@,
                    metadata_view(metadata),
                    t,
                ),
            final(self)@.tags == old(self)@.tags,
            final(self)@.joins == old(self)@.joins,
    {
        let t = now_millis();
        self.upsert_market(event, metadata, t);
    }
}

/// Relies on `chrono::Utc::now`: the current wall-clock instant, read as
/// milliseconds since the Unix epoch. Nothing is assumed of the value.
#[verifier::external_body]
fn now_millis() -> i64 {
    chrono::Utc::now().timestamp_millis()
}

/// Index of the first tag of `ts` keyed by `id`, or `-1` when none is.
pub open spec fn find_tag(ts: Seq<TagV>, id: Seq<char>) -> int
    decreases ts.len(),
{
    if ts.len() == 0 {
        -1
    } else if ts.first().id == id {
        0
    } else {
        let r = find_tag(ts.drop_first(), id);
        if r < 0 {
            -1
        } else {
            r + 1
        }
    }
}

/// What `find_tag` returns: the first matching index, if any.
pub proof fn lemma_find_tag(ts: Seq<TagV>, id: Seq<char>)
    ensures
        find_tag(ts, id) == -1 || (0 <= find_tag(ts, id) < ts.len()),
        find_tag(ts, id) == -1 ==> forall|i: int| 0 <= i < ts.len() ==> ts[i].id != id,
        find_tag(ts, id) >= 0 ==> ts[find_tag(ts, id)].id == id,
        find_tag(ts, id) >= 0 ==> forall|i: int| 0 <= i < find_tag(ts, id) ==> ts[i].id != id,
    decreases ts.len(),
{
    if ts.len() > 0 && ts.first().id != id {
        lemma_find_tag(ts.drop_first(), id);
        assert forall|i: int| 1 <= i < ts.len() implies ts[i] == ts.drop_first()[i - 1] by {}
    }
}

/// The first matching index determines `find_tag`.
pub proof fn lemma_find_tag_at(ts: Seq<TagV>, id: Seq<char>, k: int)
    requires
        0 <= k < ts.len(),
        ts[k].id == id,
        forall|i: int| 0 <= i < k ==> ts[i].id != id,
    ensures
        find_tag(ts, id) == k,
    decreases ts.len(),
{
    if k > 0 {
        assert(ts[0] == ts.first());
        assert forall|i: int| 1 <= i < ts.len() implies ts[i] == ts.drop_first()[i - 1] by {}
        lemma_find_tag_at(ts.drop_first(), id, k - 1);
    }
}

/// A stored tag after merging a newly fetched one: supplied label and
/// slug win, absent ones keep the stored value.
pub open spec fn merged_tag(stored: TagV, fetched: TagV) -> TagV {
    TagV {
        id: stored.id,
        label: if fetched.label is Some {
            fetched.label
        } else {
            stored.label
        },
        slug: if fetched.slug is Some {
            fetched.slug
        } else {
            stored.slug
        },
    }
}

/// What upserting one tag does to the tags table.
pub open spec fn upsert_tag(ts: Seq<TagV>, t: TagV) -> Seq<TagV> {
    let i = find_tag(ts, t.id);
    if i >= 0 {
        ts.update(i, merged_tag(ts[i], t))
    } else {
        ts.push(t)
    }
}

/// Whether the join table already holds this row.
pub open spec fn contains_join(js: Seq<MarketTagV>, j: MarketTagV) -> bool {
    exists|i: int| 0 <= i < js.len() && js[i] == j
}

/// What inserting one join row does: nothing when the row exists.
pub open spec fn add_join(js: Seq<MarketTagV>, j: MarketTagV) -> Seq<MarketTagV> {
    if contains_join(js, j) {
        js
    } else {
        js.push(j)
    }
}

/// What inserting a market's tags does to the tags and join tables, one
/// tag at a time in order.
pub open spec fn insert_tags_seq(
    ts: Seq<TagV>,
    js: Seq<MarketTagV>,
    cond: Seq<u8>,
    tags: Seq<TagV>,
) -> (Seq<TagV>, Seq<MarketTagV>)
    decreases tags.len(),
{
    if tags.len() == 0 {
        (ts, js)
    } else {
        let t = tags.first();
        insert_tags_seq(
            upsert_tag(ts, t),
            add_join(js, MarketTagV { condition_id: cond, tag_id: t.id }),
            cond,
            tags.drop_first(),
        )
    }
}

/// The tags joined to one market, in join-row order; join rows whose tag
/// is missing from the tags table yield nothing.
pub open spec fn tags_for(ts: Seq<TagV>, js: Seq<MarketTagV>, cond: Seq<u8>) -> Seq<TagV>
    decreases js.len(),
{
    if js.len() == 0 {
        Seq::<TagV>::empty()
    } else {
        let rest = tags_for(ts, js.drop_last(), cond);
        let j = js.last();
        if j.condition_id == cond && find_tag(ts, j.tag_id) >= 0 {
            rest.push(ts[find_tag(ts, j.tag_id)])
        } else {
            rest
        }
    }
}

/// Lexicographic code-point order on text: `a` is not after `b`.
pub open spec fn text_le(a: Seq<char>, b: Seq<char>) -> bool
    decreases a.len(),
{
    if a.len() == 0 {
        true
    } else if b.len() == 0 {
        false
    } else if (a.first() as u32) < (b.first() as u32) {
        true
    } else if a.first() != b.first() {
        false
    } else {
        text_le(a.drop_first(), b.drop_first())
    }
}

/// Order on optional labels: by text, with absent labels last, as the
/// store's ascending sort places nulls.
pub open spec fn label_le(a: Option<Seq<char>>, b: Option<Seq<char>>) -> bool {
    match (a, b) {
        (None, Some(_)) => false,
        (_, None) => true,
        (Some(x), Some(y)) => text_le(x, y),
    }
}

/// `t` placed into `s` after every tag whose label is not after `t`'s.
pub open spec fn insert_by_label(t: TagV, s: Seq<TagV>) -> Seq<TagV>
    decreases s.len(),
{
    if s.len() == 0 {
        seq![t]
    } else if label_le(s.first().label, t.label) {
        seq![s.first()] + insert_by_label(t, s.drop_first())
    } else {
        seq![t] + s
    }
}

/// The tags sorted by label (absent labels last), keeping join order
/// among equal labels.
pub open spec fn sort_by_label(s: Seq<TagV>) -> Seq<TagV>
    decreases s.len(),
{
    if s.len() == 0 {
        Seq::<TagV>::empty()
    } else {
        insert_by_label(s.last(), sort_by_label(s.drop_last()))
    }
}

proof fn lemma_text_le_skip(a: Seq<char>, b: Seq<char>, i: int)
    requires
        0 <= i <= a.len(),
        i <= b.len(),
        forall|j: int| 0 <= j < i ==> a[j] == b[j],
    ensures
        text_le(a, b) == text_le(a.skip(i), b.skip(i)),
    decreases i,
{
    if i > 0 {
        assert(a[0] == b[0]);
        assert(a.first() == b.first());
        assert forall|j: int| 0 <= j < i - 1 implies a.drop_first()[j] == b.drop_first()[j] by {
            assert(a.drop_first()[j] == a[j + 1]);
            assert(b.drop_first()[j] == b[j + 1]);
        }
        lemma_text_le_skip(a.drop_first(), b.drop_first(), i - 1);
        assert(a.drop_first().skip(i - 1) =~= a.skip(i));
        assert(b.drop_first().skip(i - 1) =~= b.skip(i));
    } else {
        assert(a.skip(0) =~= a);
        assert(b.skip(0) =~= b);
    }
}

/// Where the insertion lands: right before the first tag whose label is
/// after `t`'s.
proof fn lemma_insert_by_label_at(s: Seq<TagV>, t: TagV, k: int)
    requires
        0 <= k <= s.len(),
        forall|j: int| 0 <= j < k ==> label_le((#[trigger] s[j]).label, t.label),
        k == s.len() || !label_le(s[k].label, t.label),
    ensures
        insert_by_label(t, s) == s.take(k) + seq![t] + s.skip(k),
    decreases k,
{
    if k == 0 {
        if s.len() == 0 {
            assert(s.take(0) + seq![t] + s.skip(0) =~= seq![t]);
        } else {
            assert(s[0] == s.first());
            assert(s.take(0) + seq![t] + s.skip(0) =~= seq![t] + s);
        }
    } else {
        assert(s[0] == s.first());
        assert forall|j: int| 0 <= j < k - 1 implies label_le(
            (#[trigger] s.drop_first()[j]).label,
            t.label,
        ) by {
            assert(s.drop_first()[j] == s[j + 1]);
        }
        if k < s.len() {
            assert(s.drop_first()[k - 1] == s[k]);
        }
        lemma_insert_by_label_at(s.drop_first(), t, k - 1);
        assert(seq![s.first()] + (s.drop_first().take(k - 1) + seq![t] + s.drop_first().skip(k - 1))
            =~= s.take(k) + seq![t] + s.skip(k));
    }
}

fn text_le_exec(a: &str, b: &str) -> (r: bool)
    ensures
        r == text_le(a@, b@),
{
    let la: usize = a.unicode_len();
    let lb: usize = b.unicode_len();
    let mut i: usize = 0;
    while i < la && i < lb
        invariant
            la == a@.len(),
            lb == b@.len(),
            0 <= i <= la,
            i <= lb,
            forall|j: int| 0 <= j < i ==> a@[j] == b@[j],
        decreases la - i,
    {
        let ca: char = a.get_char(i);
        let cb: char = b.get_char(i);
        let ua: u32 = ca as u32;
        let ub: u32 = cb as u32;
        if ua < ub {
            proof {
                lemma_text_le_skip(a@, b@, i as int);
                assert(a@.skip(i as int).first() == a@[i as int]);
                assert(b@.skip(i as int).first() == b@[i as int]);
            }
            return true;
        }
        if ua != ub {
            proof {
                lemma_text_le_skip(a@, b@, i as int);
                assert(a@.skip(i as int).first() == a@[i as int]);
                assert(b@.skip(i as int).first() == b@[i as int]);
            }
            return false;
        }
        proof {
            assert(a@[i as int] == b@[i as int]);
        }
        i = i + 1;
    }
    proof {
        lemma_text_le_skip(a@, b@, i as int);
    }
    i == la
}

fn label_le_exec(a: &Option<String>, b: &Option<String>) -> (r: bool)
    ensures
        r == label_le(a.deep_view(), b.deep_view()),
{
    match (a, b) {
        (None, Some(_)) => false,
        (_, None) => true,
        (Some(x), Some(y)) => text_le_exec(x.as_str(), y.as_str()),
    }
}

/// Insertion sort of tags by label, absent labels last, stable for ties.
fn sort_tags_by_label(tags: Vec<Tag>) -> (r: Vec<Tag>)
    ensures
        r.deep_view() == sort_by_label(tags.deep_view()),
{
    let ghost tv = tags.deep_view();
    let mut out: Vec<Tag> = Vec::new();
    let n: usize = tags.len();
    let mut m: usize = 0;
    while m < n
        invariant
            n == tags@.len(),
            tv == tags.deep_view(),
            tv.len() == n,
            0 <= m <= n,
            out.deep_view() == sort_by_label(tv.take(m as int)),
        decreases n - m,
    {
        proof {
            assert(tv[m as int] == tags@[m as int]@);
            assert(tv.take(m + 1 as int).drop_last() =~= tv.take(m as int));
            assert(tv.take(m + 1 as int).last() == tv[m as int]);
        }
        let t = clone_tag(&tags[m]);
        let ghost sorted_pre = out.deep_view();
        let olen: usize = out.len();
        let mut pos: usize = 0;
        while pos < olen && label_le_exec(&out[pos].label, &t.label)
            invariant
                olen == out@.len(),
                sorted_pre == out.deep_view(),
                sorted_pre.len() == olen,
                t@ == tv[m as int],
                tv == tags.deep_view(),
                0 <= pos <= olen,
                forall|j: int|
                    0 <= j < pos ==> label_le((#[trigger] sorted_pre[j]).label, t@.label),
            decreases olen - pos,
        {
            proof {
                assert(sorted_pre[pos as int] == out@[pos as int]@);
            }
            pos = pos + 1;
        }
        proof {
            if pos < olen {
                assert(sorted_pre[pos as int] == out@[pos as int]@);
            }
            lemma_insert_by_label_at(sorted_pre, tv[m as int], pos as int);
        }
        let ghost outv_pre = out@;
        out.insert(pos, t);
        proof {
            assert(out@ == outv_pre.insert(pos as int, t));
            outv_pre.insert_ensures(pos as int, t);
            assert forall|j: int| 0 <= j < out.deep_view().len() implies out.deep_view()[j] == (
            sorted_pre.take(pos as int) + seq![tv[m as int]] + sorted_pre.skip(pos as int))[j] by {
                if j < pos {
                    assert(out@[j] == outv_pre[j]);
                    assert(sorted_pre[j] == outv_pre[j]@);
                } else if j == pos {
                    assert(out@[j] == t);
                } else {
                    assert(out@[j] == outv_pre[j - 1]);
                    assert(sorted_pre[j - 1] == outv_pre[j - 1]@);
                }
            }
            assert(out.deep_view() =~= insert_by_label(tv[m as int], sorted_pre));
            assert(out.deep_view() =~= sort_by_label(tv.take(m + 1 as int)));
        }
        m = m + 1;
    }
    proof {
        assert(tv.take(n as int) =~= tv);
    }
    out
}

/// The records still awaiting metadata, in stored (creation) order.
pub open spec fn missing_metadata(s: Seq<MarketV>) -> Seq<MarketV>
    decreases s.len(),
{
    if s.len() == 0 {
        Seq::<MarketV>::empty()
    } else {
        let rest = missing_metadata(s.drop_last());
        if s.last().metadata_fetched_at is None {
            rest.push(s.last())
        } else {
            rest
        }
    }
}

fn find_tag_idx(tags: &Vec<Tag>, id: &String) -> (r: Option<usize>)
    ensures
        r is Some <==> find_tag(tags.deep_view(), id@) >= 0,
        r matches Some(i) ==> i == find_tag(tags.deep_view(), id@),
{
    let ghost ts = tags.deep_view();
    let n: usize = tags.len();
    let mut i: usize = 0;
    while i < n
        invariant
            n == tags@.len(),
            ts == tags.deep_view(),
            ts.len() == n,
            0 <= i <= n,
            forall|j: int| 0 <= j < i ==> ts[j].id != id@,
        decreases n - i,
    {
        proof {
            assert(ts[i as int] == tags@[i as int]@);
        }
        if tags[i].id == *id {
            proof {
                lemma_find_tag_at(ts, id@, i as int);
            }
            return Some(i);
        }
        i = i + 1;
    }
    proof {
        lemma_find_tag(ts, id@);
        if find_tag(ts, id@) >= 0 {
            assert(ts[find_tag(ts, id@)].id == id@);
        }
    }
    None
}

fn clone_tag(t: &Tag) -> (r: Tag)
    ensures
        r@ == t@,
{
    let r = Tag {
        id: t.id.clone(),
        label: clone_opt_string(&t.label),
        slug: clone_opt_string(&t.slug),
    };
    assert(r@ =~= t@);
    r
}

fn merge_tag(stored: &Tag, fetched: &Tag) -> (r: Tag)
    ensures
        r@ == merged_tag(stored@, fetched@),
{
    let r = Tag {
        id: stored.id.clone(),
        label: match &fetched.label {
            Some(s) => Some(s.clone()),
            None => clone_opt_string(&stored.label),
        },
        slug: match &fetched.slug {
            Some(s) => Some(s.clone()),
            None => clone_opt_string(&stored.slug),
        },
    };
    assert(r@ =~= merged_tag(stored@, fetched@));
    r
}

/// Every record is keyed by a distinct condition identifier.
pub open spec fn ids_unique(s: Seq<MarketV>) -> bool {
    forall|i: int, j: int|
        0 <= i < j < s.len() ==> s[i].condition_id != s[j].condition_id
}

/// Uniqueness law: the condition identifier stays the single source of
/// truth. An upsert merges into the existing record or appends a record
/// with a fresh identifier, so duplicate events never create two records.
pub proof fn lemma_upsert_preserves_unique(s: Seq<MarketV>, e: EventV, m: Option<MetadataV>, now: i64)
    requires
        ids_unique(s),
    ensures
        ids_unique(upsert_seq(s, e, m, now)),
{
    let id = e.condition_id;
    lemma_find_id(s, id);
    let idx = find_id(s, id);
    if idx >= 0 {
        let s1 = s.update(idx, merged(s[idx], m, now));
        assert forall|i: int, j: int|
            0 <= i < j < s1.len() implies s1[i].condition_id != s1[j].condition_id by {
            assert(s1[i].condition_id == s[i].condition_id);
            assert(s1[j].condition_id == s[j].condition_id);
        }
    } else {
        let s1 = s.push(new_record(e, m, now));
        assert forall|i: int, j: int|
            0 <= i < j < s1.len() implies s1[i].condition_id != s1[j].condition_id by {
            if j < s.len() {
                assert(s1[i] == s[i] && s1[j] == s[j]);
            } else {
                assert(s1[i] == s[i] && s1[j] == new_record(e, m, now));
            }
        }
    }
}

/// Whether some record of `s` is keyed by `id`.
pub open spec fn contains_market_id(s: Seq<MarketV>, id: Seq<u8>) -> bool {
    exists|i: int| 0 <= i < s.len() && s[i].condition_id == id
}

proof fn lemma_upsert_seq_ids(s: Seq<MarketV>, e: EventV, m: Option<MetadataV>, now: i64, id: Seq<u8>)
    ensures
        contains_market_id(upsert_seq(s, e, m, now), id) <==> (contains_market_id(s, id) || id
            == e.condition_id),
{
    lemma_find_id(s, e.condition_id);
    let idx = find_id(s, e.condition_id);
    let s1 = upsert_seq(s, e, m, now);
    if idx >= 0 {
        assert(s1[idx].condition_id == s[idx].condition_id);
        assert forall|i: int| 0 <= i < s1.len() implies s1[i].condition_id
            == s[i].condition_id by {
            if i != idx {
                assert(s1[i] == s[i]);
            }
        }
        if contains_market_id(s1, id) {
            let i = choose|i: int| 0 <= i < s1.len() && s1[i].condition_id == id;
            assert(s[i].condition_id == id);
        }
        if contains_market_id(s, id) {
            let i = choose|i: int| 0 <= i < s.len() && s[i].condition_id == id;
            assert(s1[i].condition_id == id);
        }
        if id == e.condition_id {
            assert(s[idx].condition_id == id);
        }
    } else {
        if contains_market_id(s1, id) {
            let i = choose|i: int| 0 <= i < s1.len() && s1[i].condition_id == id;
            if i < s.len() {
                assert(s[i] == s1[i]);
            } else {
                assert(s1[i] == new_record(e, m, now));
            }
        }
        if contains_market_id(s, id) {
            let i = choose|i: int| 0 <= i < s.len() && s[i].condition_id == id;
            assert(s1[i] == s[i]);
        }
        if id == e.condition_id {
            assert(s1[s.len() as int].condition_id == id);
        }
    }
}

/// The markets table after upserting each event of `evs` in order, the
/// call for event `i` carrying metadata `ms[i]` and timestamp `ts[i]`.
pub open spec fn upsert_fold(
    s: Seq<MarketV>,
    evs: Seq<EventV>,
    ms: Seq<Option<MetadataV>>,
    ts: Seq<i64>,
) -> Seq<MarketV>
    recommends
        ms.len() == evs.len(),
        ts.len() == evs.len(),
    decreases evs.len(),
{
    if evs.len() == 0 {
        s
    } else {
        upsert_fold(
            upsert_seq(s, evs.first(), ms.first(), ts.first()),
            evs.drop_first(),
            ms.drop_first(),
            ts.drop_first(),
        )
    }
}

/// Uniqueness law over a whole run: starting from a table with distinct
/// keys, upserting any sequence of events — whatever metadata and
/// timestamp each call carries — leaves exactly one record per condition
/// identifier, and the stored identifiers are those already present plus
/// those of the events. Duplicate events never create a second record.
pub proof fn lemma_upsert_fold_one_record_per_id(
    s: Seq<MarketV>,
    evs: Seq<EventV>,
    ms: Seq<Option<MetadataV>>,
    ts: Seq<i64>,
    id: Seq<u8>,
)
    requires
        ids_unique(s),
        ms.len() == evs.len(),
        ts.len() == evs.len(),
    ensures
        ids_unique(upsert_fold(s, evs, ms, ts)),
        contains_market_id(upsert_fold(s, evs, ms, ts), id) <==> (contains_market_id(s, id)
            || contains_id(evs, id)),
    decreases evs.len(),
{
    if evs.len() == 0 {
        assert(!contains_id(evs, id));
    } else {
        let e = evs.first();
        let s1 = upsert_seq(s, e, ms.first(), ts.first());
        lemma_upsert_preserves_unique(s, e, ms.first(), ts.first());
        lemma_upsert_seq_ids(s, e, ms.first(), ts.first(), id);
        lemma_upsert_fold_one_record_per_id(s1, evs.drop_first(), ms.drop_first(), ts.drop_first(), id);
        if contains_id(evs, id) {
            let i = choose|i: int| 0 <= i < evs.len() && evs[i].condition_id == id;
            if i == 0 {
                assert(e.condition_id == id);
            } else {
                assert(evs.drop_first()[i - 1] == evs[i]);
                assert(contains_id(evs.drop_first(), id));
            }
        }
        if contains_id(evs.drop_first(), id) {
            let i = choose|i: int|
                0 <= i < evs.drop_first().len() && evs.drop_first()[i].condition_id == id;
            assert(evs[i + 1] == evs.drop_first()[i]);
        }
        if e.condition_id == id {
            assert(evs[0].condition_id == id);
        }
    }
}

/// Idempotence law: upserting the same event with the same metadata and
/// write timestamp a second time leaves the table exactly as one upsert
/// does.
pub proof fn lemma_upsert_idempotent(s: Seq<MarketV>, e: EventV, m: Option<MetadataV>, now: i64)
    ensures
        upsert_seq(upsert_seq(s, e, m, now), e, m, now) == upsert_seq(s, e, m, now),
{
    let id = e.condition_id;
    lemma_find_id(s, id);
    let idx = find_id(s, id);
    if idx >= 0 {
        let m1 = merged(s[idx], m, now);
        let s1 = s.update(idx, m1);
        assert forall|j: int| 0 <= j < idx implies s1[j].condition_id != id by {
            assert(s1[j] == s[j]);
        }
        lemma_find_id_at(s1, id, idx);
        assert(merged(m1, m, now) =~= m1);
        assert(s1.update(idx, merged(s1[idx], m, now)) =~= s1);
    } else {
        let n1 = new_record(e, m, now);
        let s1 = s.push(n1);
        let len = s.len() as int;
        assert forall|j: int| 0 <= j < len implies s1[j].condition_id != id by {
            assert(s1[j] == s[j]);
        }
        assert(s1[len] == n1);
        lemma_find_id_at(s1, id, len);
        assert(merged(n1, m, now) =~= n1);
        assert(s1.update(len, merged(s1[len], m, now)) =~= s1);
    }
}

/// What a record must keep of metadata written earlier: every field the
/// metadata supplied, and a set fetched timestamp.
pub open spec fn metadata_fields_kept(r: MarketV, md: MetadataV) -> bool {
    &&& r.question == Some(md.question)
    &&& r.slug == Some(md.slug)
    &&& r.outcomes == Some(md.outcomes)
    &&& (md.start_date is Some ==> r.start_date == md.start_date)
    &&& (md.end_date is Some ==> r.end_date == md.end_date)
    &&& r.metadata_fetched_at is Some
}

/// Merge-monotonicity law: upserting metadata and then upserting the same
/// event without metadata never nulls out the fields the metadata set.
pub proof fn lemma_upsert_merge_monotonic(
    s: Seq<MarketV>,
    e: EventV,
    md: MetadataV,
    t1: i64,
    t2: i64,
)
    ensures
        find_id(upsert_seq(upsert_seq(s, e, Some(md), t1), e, None, t2), e.condition_id) >= 0,
        metadata_fields_kept(
            upsert_seq(upsert_seq(s, e, Some(md), t1), e, None, t2)[find_id(
                upsert_seq(upsert_seq(s, e, Some(md), t1), e, None, t2),
                e.condition_id,
            )],
            md,
        ),
{
    let id = e.condition_id;
    lemma_find_id(s, id);
    let idx = find_id(s, id);
    if idx >= 0 {
        let m1 = merged(s[idx], Some(md), t1);
        let s1 = s.update(idx, m1);
        assert forall|j: int| 0 <= j < idx implies s1[j].condition_id != id by {
            assert(s1[j] == s[j]);
        }
        lemma_find_id_at(s1, id, idx);
        let m2 = merged(m1, None, t2);
        let s2 = s1.update(idx, m2);
        assert forall|j: int| 0 <= j < idx implies s2[j].condition_id != id by {
            assert(s2[j] == s1[j]);
        }
        lemma_find_id_at(s2, id, idx);
        assert(metadata_fields_kept(m2, md));
    } else {
        let n1 = new_record(e, Some(md), t1);
        let s1 = s.push(n1);
        let len = s.len() as int;
        assert forall|j: int| 0 <= j < len implies s1[j].condition_id != id by {
            assert(s1[j] == s[j]);
        }
        assert(s1[len] == n1);
        lemma_find_id_at(s1, id, len);
        let m2 = merged(n1, None, t2);
        let s2 = s1.update(len, m2);
        assert forall|j: int| 0 <= j < len implies s2[j].condition_id != id by {
            assert(s2[j] == s1[j]);
        }
        lemma_find_id_at(s2, id, len);
        assert(metadata_fields_kept(m2, md));
    }
}

} // verus!
