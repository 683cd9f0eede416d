//! The table-backed resource: list and create over one entity table.
//!
//! A `Table` models the rows the database holds for one entity kind, in
//! the order the database returns them.  The two handlers are exactly the
//! service's two operations: list every row as a JSON array, and create
//! one row from a JSON body under a fresh server-generated identifier.
//! The same code serves all three entity kinds.

use vstd::prelude::*;

verus! {

use crate::entity::Entity;
use crate::http::bad_request_response;
use crate::http::created_response;
use crate::http::Response;
use crate::ids::is_time_ordered;
use crate::ids::IdGen;
use crate::json::array_text;
use crate::json::items_text;

/// The rows of one entity's table, in database order.
pub struct Table<E> {
    pub rows: Vec<E>,
}

impl<E: Entity> Table<E> {
    /// The models of the rows, in order.
    pub open spec fn model(self) -> Seq<E::V> {
        self.rows@.map_values(|e: E| e@)
    }

    /// Every row is well-formed.
    pub open spec fn wf(self) -> bool {
        forall|i: int| 0 <= i < self.model().len() ==> E::m_wf(#[trigger] self.model()[i])
    }

    /// An empty table.
    pub fn new() -> (r: Table<E>)
        ensures
            r.model() == Seq::<E::V>::empty(),
            r.wf(),
    {
        let t = Table { rows: Vec::new() };
        proof {
            assert(t.model() =~= Seq::<E::V>::empty());
        }
        t
    }

    /// Wrap rows fetched from storage, checking each; `None` exactly when
    /// some row is not well-formed.
    pub fn from_rows(rows: Vec<E>) -> (r: Option<Table<E>>)
        ensures
            match r {
                Option::Some(t) => t.model() == rows@.map_values(|e: E| e@) && t.wf(),
                Option::None => exists|i: int|
                    0 <= i < rows@.len() && !E::m_wf(#[trigger] rows@[i]@),
            },
    {
        let mut i: usize = 0;
        while i < rows.len()
            invariant
                i <= rows.len(),
                forall|k: int| 0 <= k < i ==> E::m_wf(#[trigger] rows@[k]@),
            decreases rows.len() - i,
        {
            if !rows[i].check_wf() {
                return None;
            }
            i = i + 1;
        }
        let t = Table { rows };
        proof {
            assert(forall|k: int|
                0 <= k < t.model().len() ==> E::m_wf(#[trigger] t.model()[k]) && t.model()[k]
                    == t.rows@[k]@);
        }
        Some(t)
    }

    /// The body of a successful list: every row as JSON, in table order.
    pub open spec fn list_body(self) -> Seq<u8> {
        array_text(self.model().map_values(|m: E::V| E::m_enc(m)))
    }

    /// The list operation: always status 200 with the full table as a
    /// JSON array; an empty table yields the empty array.
    pub fn list(&self) -> (r: Response)
        requires
            self.wf(),
        ensures
            r.status == 200,
            r.body@ == self.list_body(),
    {
        let ghost encs = self.model().map_values(|m: E::V| E::m_enc(m));
        let mut out: Vec<u8> = Vec::new();
        out.push(91);
        let mut i: usize = 0;
        while i < self.rows.len()
            invariant
                i <= self.rows.len(),
                self.wf(),
                encs == self.model().map_values(|m: E::V| E::m_enc(m)),
                encs.len() == self.rows.len(),
                out@ =~= seq![91u8] + items_text(encs.subrange(0, i as int)),
            decreases self.rows.len() - i,
        {
            if i > 0 {
                out.push(44);
            }
            proof {
                assert(self.model()[i as int] == self.rows@[i as int]@);
                assert(E::m_wf(self.model()[i as int]));
            }
            let mut ev = self.rows[i].encode();
            out.append(&mut ev);
            i = i + 1;
            proof {
                let pre = encs.subrange(0, i as int);
                assert(pre.drop_last() =~= encs.subrange(0, i as int - 1));
                assert(pre.last() == E::m_enc(self.model()[i as int - 1]));
                assert(out@ =~= seq![91u8] + items_text(pre));
            }
        }
        out.push(93);
        proof {
            assert(encs.subrange(0, encs.len() as int) =~= encs);
            assert(out@ =~= array_text(encs));
        }
        Response { status: 200, body: out }
    }

    /// The create operation.  A body the decoding rejects is a client
    /// error and persists nothing.  An accepted body is stored under a
    /// fresh identifier — whatever identifier the client sent is
    /// discarded — and acknowledged with 201 and an empty body.
    pub fn create(&mut self, gen: &mut IdGen, body: &[u8]) -> (r: Response)
        requires
            old(self).wf(),
        ensures
            final(self).wf(),
            match E::m_dec(body@) {
                Option::None => *final(self) == *old(self) && *final(gen) == *old(gen) && r.status
                    == 400 && r.body@.len() == 0,
                Option::Some(m) => {
                    &&& r.status == 201
                    &&& r.body@.len() == 0
                    &&& final(gen).last_id() > old(gen).last_id()
                    &&& is_time_ordered(final(gen).last_id())
                    &&& final(self).model() == old(self).model().push(
                        E::m_with_id(m, final(gen).last_id()),
                    )
                },
            },
    {
        let decoded = E::decode(body);
        match decoded {
            None => bad_request_response(),
            Some(e) => {
                let ghost m = e@;
                let id = gen.next();
                let row = e.with_fresh_id(id);
                proof {
                    E::lemma_with_id(m, id);
                }
                self.rows.push(row);
                proof {
                    assert(self.model() =~= old(self).model().push(E::m_with_id(m, id)));
                    assert(forall|k: int|
                        0 <= k < old(self).model().len() ==> self.model()[k] == old(
                            self,
                        ).model()[k]);
                }
                created_response()
            },
        }
    }
}

/// After a create from an accepted body, a list of the same table
/// includes the stored record: it stands in the table's rows, it carries
/// the fresh server-generated identifier, and its encoding stands in the
/// listed array.
pub proof fn lemma_post_then_get_includes<E: Entity>(before: Seq<E::V>, body: Seq<u8>, id: u128)
    ensures
        E::m_dec(body) matches Some(m) ==> {
            let w = E::m_with_id(m, id);
            &&& before.push(w).contains(w)
            &&& E::m_id(w) == id
            &&& before.push(w).map_values(|x: E::V| E::m_enc(x)).contains(E::m_enc(w))
        },
{
    if E::m_dec(body) is Some {
        let m = E::m_dec(body)->Some_0;
        let w = E::m_with_id(m, id);
        E::lemma_with_id(m, id);
        assert(before.push(w)[before.len() as int] == w);
        assert(before.push(w).map_values(|x: E::V| E::m_enc(x))[before.len() as int] == E::m_enc(
            w,
        ));
    }
}

/// Two creates with distinct fresh identifiers — in whichever order the
/// storage serialized them — both leave their row in the table, and the
/// rows are distinct records, each retrievable afterwards.
pub proof fn lemma_both_creates_kept<E: Entity>(
    before: Seq<E::V>,
    m1: E::V,
    m2: E::V,
    id1: u128,
    id2: u128,
)
    requires
        id1 != id2,
    ensures
        ({
            let w1 = E::m_with_id(m1, id1);
            let w2 = E::m_with_id(m2, id2);
            let after = before.push(w1).push(w2);
            &&& after.contains(w1)
            &&& after.contains(w2)
            &&& w1 != w2
        }),
{
    let w1 = E::m_with_id(m1, id1);
    let w2 = E::m_with_id(m2, id2);
    E::lemma_with_id(m1, id1);
    E::lemma_with_id(m2, id2);
    let after = before.push(w1).push(w2);
    assert(after[before.len() as int] == w1);
    assert(after[before.len() as int + 1] == w2);
}

/// A list of an empty table answers 200 with the empty JSON array —
/// never an error.
pub proof fn lemma_empty_list_is_empty_array<E: Entity>(t: Table<E>)
    requires
        t.model().len() == 0,
    ensures
        t.list_body() =~= seq![91u8, 93u8],
{
    assert(t.model().map_values(|m: E::V| E::m_enc(m)).len() == 0);
}

} // verus!
