//! The common shape of a stored record.
//!
//! Each entity kind (crag, route, ascent) is a plain record with a
//! server-generated identifier and a fixed set of remaining fields.  The
//! trait below is the single table-backed-resource capability the rest of
//! the library is written against: a mathematical model of the record, a
//! well-formedness condition, the JSON body it is read from and written
//! to, and the replacement of the identifier at creation time.

use vstd::prelude::*;

verus! {

/// The view of an optional byte string.
pub open spec fn opt_view(o: Option<Vec<u8>>) -> Option<Seq<u8>> {
    match o {
        Option::None => Option::None,
        Option::Some(v) => Option::Some(v@),
    }
}

/// Whether two byte strings hold the same bytes.
pub fn bytes_eq(a: &[u8], b: &[u8]) -> (r: bool)
    ensures
        r == (a@ == b@),
{
    if a.len() != b.len() {
        assert(a@ != b@);
        return false;
    }
    let mut i: usize = 0;
    while i < a.len()
        invariant
            i <= a.len(),
            a@.len() == b@.len(),
            forall|k: int| 0 <= k < i ==> a@[k] == b@[k],
        decreases a.len() - i,
    {
        if a[i] != b[i] {
            assert(a@ != b@);
            return false;
        }
        i = i + 1;
    }
    proof {
        assert(a@ =~= b@);
    }
    true
}

/// A record kind stored in its own table: its model, its JSON body, and
/// how a fresh server-generated identifier replaces whatever identifier
/// the client sent.
pub trait Entity: View + Sized {
    /// Well-formed models: what every stored row satisfies.
    spec fn m_wf(m: Self::V) -> bool;

    /// The identifier of a model.
    spec fn m_id(m: Self::V) -> u128;

    /// The same record with its identifier replaced.
    spec fn m_with_id(m: Self::V, id: u128) -> Self::V;

    /// The JSON object this record is written as.
    spec fn m_enc(m: Self::V) -> Seq<u8>;

    /// The record a JSON body denotes, `None` for a rejected body.
    spec fn m_dec(s: Seq<u8>) -> Option<Self::V>;

    /// Every accepted body yields a well-formed record.
    proof fn lemma_dec_wf(s: Seq<u8>)
        ensures
            Self::m_dec(s) matches Some(m) ==> Self::m_wf(m),
    ;

    /// Replacing the identifier sets it and keeps well-formedness.
    proof fn lemma_with_id(m: Self::V, id: u128)
        ensures
            Self::m_id(Self::m_with_id(m, id)) == id,
            Self::m_wf(m) ==> Self::m_wf(Self::m_with_id(m, id)),
    ;

    /// Write the record as its JSON object.
    fn encode(&self) -> (r: Vec<u8>)
        requires
            Self::m_wf(self@),
        ensures
            r@ == Self::m_enc(self@),
    ;

    /// Read a record from a JSON body; `None` exactly on the bodies the
    /// decoding rejects.
    fn decode(s: &[u8]) -> (r: Option<Self>)
        ensures
            match r {
                Option::Some(e) => Self::m_dec(s@) == Option::Some(e@) && Self::m_wf(e@),
                Option::None => Self::m_dec(s@) is None,
            },
    ;

    /// Whether this record is well-formed.
    fn check_wf(&self) -> (r: bool)
        ensures
            r == Self::m_wf(self@),
    ;

    /// Discard the identifier the record carries in favour of `id`.
    fn with_fresh_id(self, id: u128) -> (r: Self)
        ensures
            r@ == Self::m_with_id(self@, id),
    ;
}

} // verus!
