//! The partition store: an append-only sequence of cache records, each a
//! fresh record identifier beside a short name and document bytes, with
//! point lookup by short name. Writes never update or delete; a lookup
//! among duplicates selects the most recent record.

use vstd::prelude::*;

verus! {

/// One persisted partition: a record identifier unique within the store,
/// the retrieval key, and the document bytes.
pub struct CacheRecord {
    pub record_id: u64,
    pub short_name: String,
    pub content: Vec<u8>,
}

/// The append-only store of cache records.
pub struct CacheStore {
    records: Vec<CacheRecord>,
}

impl View for CacheStore {
    type V = Seq<CacheRecord>;

    closed spec fn view(&self) -> Seq<CacheRecord> {
        self.records@
    }
}

/// Whether some record of `rs` carries the short name `name`.
pub open spec fn has_record_named(rs: Seq<CacheRecord>, name: Seq<char>) -> bool {
    exists|i: int| 0 <= i < rs.len() && rs[i].short_name@ == name
}

/// The position of the most recent record of `rs` named `name`, or -1 when
/// none is.
pub open spec fn latest_index_for(rs: Seq<CacheRecord>, name: Seq<char>) -> int
    decreases rs.len(),
{
    if rs.len() == 0 {
        -1
    } else if rs.last().short_name@ == name {
        rs.len() - 1
    } else {
        latest_index_for(rs.drop_last(), name)
    }
}

/// The record identifiers of the records of `rs` named `name`, oldest
/// first.
pub open spec fn ids_for(rs: Seq<CacheRecord>, name: Seq<char>) -> Seq<u64>
    decreases rs.len(),
{
    if rs.len() == 0 {
        Seq::empty()
    } else {
        let rest = ids_for(rs.drop_last(), name);
        if rs.last().short_name@ == name {
            rest.push(rs.last().record_id)
        } else {
            rest
        }
    }
}

/// Every record's identifier is its position: identifiers are unique and
/// strictly increasing, so the most recent matching record is also the one
/// with the greatest identifier.
pub open spec fn store_wf(rs: Seq<CacheRecord>) -> bool {
    forall|i: int| 0 <= i < rs.len() ==> rs[i].record_id == i as u64
}

/// A byte-for-byte copy of a document.
fn clone_bytes(v: &Vec<u8>) -> (r: Vec<u8>)
    ensures
        r@ == v@,
{
    let mut r: Vec<u8> = Vec::new();
    let mut k: usize = 0;
    while k < v.len()
        invariant
            k <= v@.len(),
            r@.len() == k,
            forall|i: int| 0 <= i < k ==> r@[i] == v@[i],
        decreases v@.len() - k,
    {
        r.push(v[k]);
        k = k + 1;
    }
    proof {
        assert(r@ =~= v@);
    }
    r
}

impl CacheStore {
    /// An empty store.
    pub fn new() -> (s: CacheStore)
        ensures
            s@ == Seq::<CacheRecord>::empty(),
            store_wf(s@),
    {
        CacheStore { records: Vec::new() }
    }

    /// Persist one partition: assign a fresh record identifier — one no
    /// earlier record carries — and append the record. Nothing already in
    /// the store is touched, whatever short names it carries.
    pub fn insert(&mut self, short_name: String, content: Vec<u8>) -> (id: u64)
        requires
            store_wf(old(self)@),
        ensures
            store_wf(final(self)@),
            final(self)@ == old(self)@.push(
                CacheRecord { record_id: id, short_name, content },
            ),
            forall|i: int| 0 <= i < old(self)@.len() ==> old(self)@[i].record_id < id,
    {
        let id: u64 = self.records.len() as u64;
        self.records.push(CacheRecord { record_id: id, short_name, content });
        id
    }

    /// Point lookup: the content of the most recent record named `name`, or
    /// an explicit absence when the store holds no such record.
    pub fn lookup(&self, name: &String) -> (r: Option<Vec<u8>>)
        ensures
            r is Some == has_record_named(self@, name@),
            r matches Some(c) ==> {
                let m = latest_index_for(self@, name@);
                0 <= m < self@.len() && c@ == self@[m].content@
            },
    {
        let n = self.records.len();
        let mut k: usize = n;
        while k > 0
            invariant
                k <= n,
                n == self@.len(),
                forall|j: int| k <= j < n ==> self@[j].short_name@ != name@,
            decreases k,
        {
            if self.records[k - 1].short_name.eq(name) {
                proof {
                    lemma_latest_from_suffix(self@, name@, k as int - 1);
                }
                return Some(clone_bytes(&self.records[k - 1].content));
            }
            k = k - 1;
        }
        assert(!has_record_named(self@, name@));
        None
    }

    /// Diagnostic listing: the identifiers of every record named `name`,
    /// oldest first. More than one identifier flags duplicate records for
    /// the name.
    pub fn record_ids_for(&self, name: &String) -> (r: Vec<u64>)
        ensures
            r@ == ids_for(self@, name@),
    {
        let n = self.records.len();
        let mut r: Vec<u64> = Vec::new();
        let mut k: usize = 0;
        proof {
            assert(ids_for(self@.take(0), name@) =~= r@);
        }
        while k < n
            invariant
                k <= n,
                n == self@.len(),
                r@ == ids_for(self@.take(k as int), name@),
            decreases n - k,
        {
            let ghost prefix = self@.take(k as int);
            if self.records[k].short_name.eq(name) {
                r.push(self.records[k].record_id);
            }
            k = k + 1;
            proof {
                assert(self@.take(k as int).drop_last() =~= prefix);
                assert(self@.take(k as int).last() == self@[k as int - 1]);
            }
        }
        proof {
            assert(self@.take(n as int) =~= self@);
        }
        r
    }
}

/// A match at `m` with nothing matching after it is the most recent match.
proof fn lemma_latest_from_suffix(rs: Seq<CacheRecord>, name: Seq<char>, m: int)
    requires
        0 <= m < rs.len(),
        rs[m].short_name@ == name,
        forall|j: int| m < j < rs.len() ==> rs[j].short_name@ != name,
    ensures
        latest_index_for(rs, name) == m,
    decreases rs.len(),
{
    if m < rs.len() - 1 {
        let pre = rs.drop_last();
        assert(pre[m] == rs[m]);
        assert forall|j: int| m < j < pre.len() implies pre[j].short_name@ != name by {
            assert(pre[j] == rs[j]);
        }
        lemma_latest_from_suffix(pre, name, m);
    }
}

/// Listing distributes over appended records: the identifiers for `name`
/// in `a + b` are those in `a` followed by those in `b`. An append can
/// hide nothing from the diagnostic listing.
pub proof fn lemma_ids_for_concat(a: Seq<CacheRecord>, b: Seq<CacheRecord>, name: Seq<char>)
    ensures
        ids_for(a + b, name) == ids_for(a, name) + ids_for(b, name),
    decreases b.len(),
{
    if b.len() == 0 {
        assert(a + b =~= a);
        assert(ids_for(a, name) + ids_for(b, name) =~= ids_for(a, name));
    } else {
        lemma_ids_for_concat(a, b.drop_last(), name);
        assert((a + b).drop_last() =~= a + b.drop_last());
        assert((a + b).last() == b.last());
        if b.last().short_name@ == name {
            assert(ids_for(a, name) + ids_for(b, name) =~= (ids_for(a, name) + ids_for(
                b.drop_last(),
                name,
            )).push(b.last().record_id));
        }
    }
}

/// A name with a record has at least one listed identifier.
pub proof fn lemma_ids_for_at_least_one(rs: Seq<CacheRecord>, name: Seq<char>)
    requires
        has_record_named(rs, name),
    ensures
        ids_for(rs, name).len() >= 1,
    decreases rs.len(),
{
    let w = choose|i: int| 0 <= i < rs.len() && rs[i].short_name@ == name;
    if rs.last().short_name@ == name {
    } else {
        assert(w < rs.len() - 1);
        assert(rs.drop_last()[w] == rs[w]);
        assert(has_record_named(rs.drop_last(), name));
        lemma_ids_for_at_least_one(rs.drop_last(), name);
    }
}

/// However many records share a short name — duplicate pipeline runs, or
/// colliding identifiers — the read path still resolves the name: the
/// selected record is a record named `name`, and it is the most recent one.
pub proof fn lemma_lookup_selects_latest(rs: Seq<CacheRecord>, name: Seq<char>)
    requires
        has_record_named(rs, name),
    ensures
        0 <= latest_index_for(rs, name) < rs.len(),
        rs[latest_index_for(rs, name)].short_name@ == name,
        forall|j: int| latest_index_for(rs, name) < j < rs.len() ==> rs[j].short_name@ != name,
    decreases rs.len(),
{
    if rs.len() > 0 {
        if rs.last().short_name@ == name {
        } else {
            let pre = rs.drop_last();
            let w = choose|i: int| 0 <= i < rs.len() && rs[i].short_name@ == name;
            assert(pre[w] == rs[w]);
            assert(has_record_named(pre, name));
            lemma_lookup_selects_latest(pre, name);
            let m = latest_index_for(pre, name);
            assert(pre[m] == rs[m]);
            assert forall|j: int| m < j < rs.len() implies rs[j].short_name@ != name by {
                if j < rs.len() - 1 {
                    assert(rs[j] == pre[j]);
                }
            }
        }
    }
}

} // verus!
