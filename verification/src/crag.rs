//! Crags: named climbing locations, the root entity.

use vstd::prelude::*;

verus! {

use crate::entity::bytes_eq;
use crate::entity::opt_view;
use crate::entity::Entity;
use crate::ids::format_id;
use crate::ids::id_of_text;
use crate::ids::id_text;
use crate::ids::parse_id;
use crate::json::body_members;
use crate::json::push_str_text;
use crate::json::read_body_members;
use crate::json::str_text;
use crate::ids::lemma_id_text_round_trip;
use crate::json::lemma_three_member_object_reads;
use crate::json::lemma_ascii_utf8_wf;
use crate::json::member_text;
use crate::json::utf8_wf;
use crate::ids::lemma_id_text_ascii;

/// A climbing location: a row of the `crag` table.
pub struct Crag {
    pub id: u128,
    pub name: Vec<u8>,
    pub location: Vec<u8>,
}

/// The mathematical model of a crag.
#[verifier::ext_equal]
pub ghost struct CragM {
    pub id: u128,
    pub name: Seq<u8>,
    pub location: Seq<u8>,
}

impl View for Crag {
    type V = CragM;

    open spec fn view(&self) -> CragM {
        CragM { id: self.id, name: self.name@, location: self.location@ }
    }
}

pub open spec fn key_id() -> Seq<u8> {
    seq![105u8, 100u8]
}

pub open spec fn key_name() -> Seq<u8> {
    seq![110u8, 97u8, 109u8, 101u8]
}

pub open spec fn key_location() -> Seq<u8> {
    seq![108u8, 111u8, 99u8, 97u8, 116u8, 105u8, 111u8, 110u8]
}

pub(crate) fn key_id_bytes() -> (r: Vec<u8>)
    ensures
        r@ == key_id(),
{
    let mut v: Vec<u8> = Vec::new();
    v.push(105);
    v.push(100);
    proof {
        assert(v@ =~= key_id());
    }
    v
}

pub(crate) fn key_name_bytes() -> (r: Vec<u8>)
    ensures
        r@ == key_name(),
{
    let mut v: Vec<u8> = Vec::new();
    v.push(110);
    v.push(97);
    v.push(109);
    v.push(101);
    proof {
        assert(v@ =~= key_name());
    }
    v
}

fn key_location_bytes() -> (r: Vec<u8>)
    ensures
        r@ == key_location(),
{
    let mut v: Vec<u8> = Vec::new();
    v.push(108);
    v.push(111);
    v.push(99);
    v.push(97);
    v.push(116);
    v.push(105);
    v.push(111);
    v.push(110);
    proof {
        assert(v@ =~= key_location());
    }
    v
}

/// The JSON object a crag is written as: its identifier in canonical
/// text, then the remaining fields in declaration order.
pub open spec fn crag_enc(m: CragM) -> Seq<u8> {
    seq![123u8] + str_text(key_id()) + seq![58u8] + str_text(id_text(m.id)) + seq![44u8]
        + str_text(key_name()) + seq![58u8] + str_text(m.name) + seq![44u8] + str_text(
        key_location(),
    ) + seq![58u8] + str_text(m.location) + seq![125u8]
}

/// Fold the members of a body into the three optional fields of a crag,
/// rejecting unknown and repeated keys.
pub open spec fn crag_fold(
    ms: Seq<(Seq<u8>, Seq<u8>)>,
    i: int,
    id: Option<Seq<u8>>,
    name: Option<Seq<u8>>,
    location: Option<Seq<u8>>,
) -> Option<(Option<Seq<u8>>, Option<Seq<u8>>, Option<Seq<u8>>)>
    decreases ms.len() - i,
{
    if !(0 <= i < ms.len()) {
        Some((id, name, location))
    } else {
        let kv = ms[i];
        if kv.0 == key_id() {
            if id is Some {
                None
            } else {
                crag_fold(ms, i + 1, Some(kv.1), name, location)
            }
        } else if kv.0 == key_name() {
            if name is Some {
                None
            } else {
                crag_fold(ms, i + 1, id, Some(kv.1), location)
            }
        } else if kv.0 == key_location() {
            if location is Some {
                None
            } else {
                crag_fold(ms, i + 1, id, name, Some(kv.1))
            }
        } else {
            None
        }
    }
}

/// The crag a member list denotes: `name` and `location` required, the
/// identifier optional (absent means the nil identifier) but, when sent,
/// well-formed identifier text.
pub open spec fn crag_of_members(ms: Seq<(Seq<u8>, Seq<u8>)>) -> Option<CragM> {
    match crag_fold(ms, 0, None, None, None) {
        None => None,
        Some((id, name, location)) => match (name, location) {
            (Some(n), Some(l)) => match id {
                None => Some(CragM { id: 0, name: n, location: l }),
                Some(t) => match id_of_text(t) {
                    None => None,
                    Some(v) => Some(CragM { id: v, name: n, location: l }),
                },
            },
            _ => None,
        },
    }
}

/// The crag a whole JSON body denotes.
pub open spec fn crag_dec(s: Seq<u8>) -> Option<CragM> {
    match body_members(s) {
        None => None,
        Some(ms) => crag_of_members(ms),
    }
}

fn crag_from_members(ms: &Vec<(Vec<u8>, Vec<u8>)>) -> (r: Option<Crag>)
    ensures
        match r {
            Option::Some(e) => crag_of_members(ms.deep_view()) == Option::Some(e@),
            Option::None => crag_of_members(ms.deep_view()) is None,
        },
{
    let key_i = key_id_bytes();
    let key_n = key_name_bytes();
    let key_l = key_location_bytes();
    let mut id_t: Option<Vec<u8>> = None;
    let mut name_v: Option<Vec<u8>> = None;
    let mut loc_v: Option<Vec<u8>> = None;
    let ghost msd = ms.deep_view();
    let mut i: usize = 0;
    while i < ms.len()
        invariant
            i <= ms.len(),
            msd == ms.deep_view(),
            key_i@ == key_id(),
            key_n@ == key_name(),
            key_l@ == key_location(),
            crag_fold(msd, 0, None, None, None) == crag_fold(
                msd,
                i as int,
                opt_view(id_t),
                opt_view(name_v),
                opt_view(loc_v),
            ),
        decreases ms.len() - i,
    {
        proof {
            assert(msd[i as int] == (ms@[i as int].0@, ms@[i as int].1@));
        }
        let kv = &ms[i];
        if bytes_eq(kv.0.as_slice(), key_i.as_slice()) {
            if id_t.is_some() {
                return None;
            }
            id_t = Some(vstd::slice::slice_to_vec(kv.1.as_slice()));
        } else if bytes_eq(kv.0.as_slice(), key_n.as_slice()) {
            if name_v.is_some() {
                return None;
            }
            name_v = Some(vstd::slice::slice_to_vec(kv.1.as_slice()));
        } else if bytes_eq(kv.0.as_slice(), key_l.as_slice()) {
            if loc_v.is_some() {
                return None;
            }
            loc_v = Some(vstd::slice::slice_to_vec(kv.1.as_slice()));
        } else {
            return None;
        }
        i = i + 1;
    }
    let name = match name_v {
        None => {
            return None;
        },
        Some(n) => n,
    };
    let location = match loc_v {
        None => {
            return None;
        },
        Some(l) => l,
    };
    let id: u128 = match id_t {
        None => 0,
        Some(t) => match parse_id(t.as_slice()) {
            None => {
                return None;
            },
            Some(v) => v,
        },
    };
    Some(Crag { id, name, location })
}

impl Entity for Crag {
    open spec fn m_wf(m: CragM) -> bool {
        true
    }

    open spec fn m_id(m: CragM) -> u128 {
        m.id
    }

    open spec fn m_with_id(m: CragM, id: u128) -> CragM {
        CragM { id, ..m }
    }

    open spec fn m_enc(m: CragM) -> Seq<u8> {
        crag_enc(m)
    }

    open spec fn m_dec(s: Seq<u8>) -> Option<CragM> {
        crag_dec(s)
    }

    proof fn lemma_dec_wf(s: Seq<u8>) {
    }

    proof fn lemma_with_id(m: CragM, id: u128) {
    }

    fn encode(&self) -> (r: Vec<u8>) {
        let mut out: Vec<u8> = Vec::new();
        out.push(123);
        let k0 = key_id_bytes();
        push_str_text(&mut out, k0.as_slice());
        out.push(58);
        let idt = format_id(self.id);
        push_str_text(&mut out, idt.as_slice());
        out.push(44);
        let k1 = key_name_bytes();
        push_str_text(&mut out, k1.as_slice());
        out.push(58);
        push_str_text(&mut out, self.name.as_slice());
        out.push(44);
        let k2 = key_location_bytes();
        push_str_text(&mut out, k2.as_slice());
        out.push(58);
        push_str_text(&mut out, self.location.as_slice());
        out.push(125);
        proof {
            assert(out@ =~= crag_enc(self@));
        }
        out
    }

    fn decode(s: &[u8]) -> (r: Option<Crag>) {
        let ms = read_body_members(s);
        match ms {
            None => None,
            Some(ms) => crag_from_members(&ms),
        }
    }

    fn check_wf(&self) -> (r: bool) {
        true
    }

    fn with_fresh_id(self, id: u128) -> (r: Crag) {
        Crag { id, name: self.name, location: self.location }
    }
}

} // verus!

verus! {

/// What a create stores for an accepted crag body: a record whose name
/// and location equal the posted values and whose identifier is the
/// fresh server-generated one — not whatever identifier the body carried
/// — and which a later list of the same table includes.
pub proof fn lemma_created_crag_fields(before: Seq<CragM>, body: Seq<u8>, id: u128)
    ensures
        crag_dec(body) matches Some(m) ==> {
            let w = Crag::m_with_id(m, id);
            &&& w == (CragM { id: id, name: m.name, location: m.location })
            &&& w.id == id
            &&& before.push(w).contains(w)
        },
{
    if crag_dec(body) is Some {
        let m = crag_dec(body)->Some_0;
        let w = Crag::m_with_id(m, id);
        assert(before.push(w)[before.len() as int] == w);
    }
}

} // verus!

verus! {

/// Writing a crag whose text fields are well-formed UTF-8 and reading
/// the text back yields the same record: the JSON form loses nothing.
#[verifier::rlimit(100)]
pub proof fn lemma_crag_round_trip(m: CragM)
    requires
        utf8_wf(m.name),
        utf8_wf(m.location),
    ensures
        crag_dec(crag_enc(m)) == Some(m),
{
    let b = crag_enc(m);
    let idt = id_text(m.id);
    lemma_id_text_ascii(m.id);
    lemma_ascii_utf8_wf(idt);
    assert(forall|j: int| 0 <= j < key_id().len() ==> key_id()[j] < 0x80);
    lemma_ascii_utf8_wf(key_id());
    assert(forall|j: int| 0 <= j < key_name().len() ==> key_name()[j] < 0x80);
    lemma_ascii_utf8_wf(key_name());
    assert(forall|j: int| 0 <= j < key_location().len() ==> key_location()[j] < 0x80);
    lemma_ascii_utf8_wf(key_location());
    assert(b =~= seq![123u8] + member_text(key_id(), idt) + seq![44u8] + member_text(
        key_name(),
        m.name,
    ) + seq![44u8] + member_text(key_location(), m.location) + seq![125u8]);
    lemma_three_member_object_reads(
        b,
        key_id(),
        idt,
        key_name(),
        m.name,
        key_location(),
        m.location,
    );
    let ms = seq![(key_id(), idt), (key_name(), m.name), (key_location(), m.location)];
    assert(key_name() != key_id()) by {
        assert(key_name().len() != key_id().len());
    }
    assert(key_location() != key_id()) by {
        assert(key_location().len() != key_id().len());
    }
    assert(key_location() != key_name()) by {
        assert(key_location().len() != key_name().len());
    }
    let full = Some((Some(idt), Some(m.name), Some(m.location)));
    assert(crag_fold(ms, 3, Some(idt), Some(m.name), Some(m.location)) == full);
    assert(crag_fold(ms, 2, Some(idt), Some(m.name), None) == full);
    assert(crag_fold(ms, 1, Some(idt), None, None) == full);
    assert(crag_fold(ms, 0, None, None, None) == full);
    lemma_id_text_round_trip(m.id);
    assert(crag_of_members(ms) matches Some(r) && r =~= m);
}

} // verus!
