//! Routes: named climbing paths, each situated at one crag.

use vstd::prelude::*;

verus! {

use crate::crag::key_id;
use crate::crag::key_id_bytes;
use crate::crag::key_name;
use crate::crag::key_name_bytes;
use crate::entity::bytes_eq;
use crate::entity::opt_view;
use crate::entity::Entity;
use crate::ids::format_id;
use crate::ids::id_of_text;
use crate::ids::id_text;
use crate::ids::parse_id;
use crate::json::body_members;
use crate::json::push_str_text;
use crate::json::read_body_members;
use crate::json::str_text;
use crate::ids::lemma_id_text_round_trip;
use crate::json::lemma_three_member_object_reads;
use crate::json::lemma_ascii_utf8_wf;
use crate::json::member_text;
use crate::json::utf8_wf;
use crate::ids::lemma_id_text_ascii;

/// A climbing path at a crag: a row of the `route` table.  The crag it
/// belongs to is referenced by identifier and not checked here.
pub struct Route {
    pub id: u128,
    pub crag_id: u128,
    pub name: Vec<u8>,
}

/// The mathematical model of a route.
#[verifier::ext_equal]
pub ghost struct RouteM {
    pub id: u128,
    pub crag_id: u128,
    pub name: Seq<u8>,
}

impl View for Route {
    type V = RouteM;

    open spec fn view(&self) -> RouteM {
        RouteM { id: self.id, crag_id: self.crag_id, name: self.name@ }
    }
}

pub open spec fn key_crag_id() -> Seq<u8> {
    seq![99u8, 114u8, 97u8, 103u8, 95u8, 105u8, 100u8]
}

fn key_crag_id_bytes() -> (r: Vec<u8>)
    ensures
        r@ == key_crag_id(),
{
    let mut v: Vec<u8> = Vec::new();
    v.push(99);
    v.push(114);
    v.push(97);
    v.push(103);
    v.push(95);
    v.push(105);
    v.push(100);
    proof {
        assert(v@ =~= key_crag_id());
    }
    v
}

/// The JSON object a route is written as.
pub open spec fn route_enc(m: RouteM) -> Seq<u8> {
    seq![123u8] + str_text(key_id()) + seq![58u8] + str_text(id_text(m.id)) + seq![44u8]
        + str_text(key_crag_id()) + seq![58u8] + str_text(id_text(m.crag_id)) + seq![44u8]
        + str_text(key_name()) + seq![58u8] + str_text(m.name) + seq![125u8]
}

/// Fold the members of a body into the three optional fields of a route,
/// rejecting unknown and repeated keys.
pub open spec fn route_fold(
    ms: Seq<(Seq<u8>, Seq<u8>)>,
    i: int,
    id: Option<Seq<u8>>,
    crag_id: Option<Seq<u8>>,
    name: Option<Seq<u8>>,
) -> Option<(Option<Seq<u8>>, Option<Seq<u8>>, Option<Seq<u8>>)>
    decreases ms.len() - i,
{
    if !(0 <= i < ms.len()) {
        Some((id, crag_id, name))
    } else {
        let kv = ms[i];
        if kv.0 == key_id() {
            if id is Some {
                None
            } else {
                route_fold(ms, i + 1, Some(kv.1), crag_id, name)
            }
        } else if kv.0 == key_crag_id() {
            if crag_id is Some {
                None
            } else {
                route_fold(ms, i + 1, id, Some(kv.1), name)
            }
        } else if kv.0 == key_name() {
            if name is Some {
                None
            } else {
                route_fold(ms, i + 1, id, crag_id, Some(kv.1))
            }
        } else {
            None
        }
    }
}

/// The route a member list denotes: `crag_id` and `name` required, the
/// identifier optional; identifier texts must be well-formed.
pub open spec fn route_of_members(ms: Seq<(Seq<u8>, Seq<u8>)>) -> Option<RouteM> {
    match route_fold(ms, 0, None, None, None) {
        None => None,
        Some((id, crag_id, name)) => match (crag_id, name) {
            (Some(ct), Some(n)) => match id_of_text(ct) {
                None => None,
                Some(c) => match id {
                    None => Some(RouteM { id: 0, crag_id: c, name: n }),
                    Some(t) => match id_of_text(t) {
                        None => None,
                        Some(v) => Some(RouteM { id: v, crag_id: c, name: n }),
                    },
                },
            },
            _ => None,
        },
    }
}

/// The route a whole JSON body denotes.
pub open spec fn route_dec(s: Seq<u8>) -> Option<RouteM> {
    match body_members(s) {
        None => None,
        Some(ms) => route_of_members(ms),
    }
}

fn route_from_members(ms: &Vec<(Vec<u8>, Vec<u8>)>) -> (r: Option<Route>)
    ensures
        match r {
            Option::Some(e) => route_of_members(ms.deep_view()) == Option::Some(e@),
            Option::None => route_of_members(ms.deep_view()) is None,
        },
{
    let key_i = key_id_bytes();
    let key_c = key_crag_id_bytes();
    let key_n = key_name_bytes();
    let mut id_t: Option<Vec<u8>> = None;
    let mut crag_t: Option<Vec<u8>> = None;
    let mut name_v: Option<Vec<u8>> = None;
    let ghost msd = ms.deep_view();
    let mut i: usize = 0;
    while i < ms.len()
        invariant
            i <= ms.len(),
            msd == ms.deep_view(),
            key_i@ == key_id(),
            key_c@ == key_crag_id(),
            key_n@ == key_name(),
            route_fold(msd, 0, None, None, None) == route_fold(
                msd,
                i as int,
                opt_view(id_t),
                opt_view(crag_t),
                opt_view(name_v),
            ),
        decreases ms.len() - i,
    {
        proof {
            assert(msd[i as int] == (ms@[i as int].0@, ms@[i as int].1@));
        }
        let kv = &ms[i];
        if bytes_eq(kv.0.as_slice(), key_i.as_slice()) {
            if id_t.is_some() {
                return None;
            }
            id_t = Some(vstd::slice::slice_to_vec(kv.1.as_slice()));
        } else if bytes_eq(kv.0.as_slice(), key_c.as_slice()) {
            if crag_t.is_some() {
                return None;
            }
            crag_t = Some(vstd::slice::slice_to_vec(kv.1.as_slice()));
        } else if bytes_eq(kv.0.as_slice(), key_n.as_slice()) {
            if name_v.is_some() {
                return None;
            }
            name_v = Some(vstd::slice::slice_to_vec(kv.1.as_slice()));
        } else {
            return None;
        }
        i = i + 1;
    }
    let crag_text = match crag_t {
        None => {
            return None;
        },
        Some(c) => c,
    };
    let name = match name_v {
        None => {
            return None;
        },
        Some(n) => n,
    };
    let crag_id: u128 = match parse_id(crag_text.as_slice()) {
        None => {
            return None;
        },
        Some(c) => c,
    };
    let id: u128 = match id_t {
        None => 0,
        Some(t) => match parse_id(t.as_slice()) {
            None => {
                return None;
            },
            Some(v) => v,
        },
    };
    Some(Route { id, crag_id, name })
}

impl Entity for Route {
    open spec fn m_wf(m: RouteM) -> bool {
        true
    }

    open spec fn m_id(m: RouteM) -> u128 {
        m.id
    }

    open spec fn m_with_id(m: RouteM, id: u128) -> RouteM {
        RouteM { id, ..m }
    }

    open spec fn m_enc(m: RouteM) -> Seq<u8> {
        route_enc(m)
    }

    open spec fn m_dec(s: Seq<u8>) -> Option<RouteM> {
        route_dec(s)
    }

    proof fn lemma_dec_wf(s: Seq<u8>) {
    }

    proof fn lemma_with_id(m: RouteM, id: u128) {
    }

    fn encode(&self) -> (r: Vec<u8>) {
        let mut out: Vec<u8> = Vec::new();
        out.push(123);
        let k0 = key_id_bytes();
        push_str_text(&mut out, k0.as_slice());
        out.push(58);
        let idt = format_id(self.id);
        push_str_text(&mut out, idt.as_slice());
        out.push(44);
        let k1 = key_crag_id_bytes();
        push_str_text(&mut out, k1.as_slice());
        out.push(58);
        let ct = format_id(self.crag_id);
        push_str_text(&mut out, ct.as_slice());
        out.push(44);
        let k2 = key_name_bytes();
        push_str_text(&mut out, k2.as_slice());
        out.push(58);
        push_str_text(&mut out, self.name.as_slice());
        out.push(125);
        proof {
            assert(out@ =~= route_enc(self@));
        }
        out
    }

    fn decode(s: &[u8]) -> (r: Option<Route>) {
        let ms = read_body_members(s);
        match ms {
            None => None,
            Some(ms) => route_from_members(&ms),
        }
    }

    fn check_wf(&self) -> (r: bool) {
        true
    }

    fn with_fresh_id(self, id: u128) -> (r: Route) {
        Route { id, crag_id: self.crag_id, name: self.name }
    }
}

} // verus!

verus! {

/// Writing a route whose name is well-formed UTF-8 and reading the text
/// back yields the same record.
#[verifier::rlimit(100)]
pub proof fn lemma_route_round_trip(m: RouteM)
    requires
        utf8_wf(m.name),
    ensures
        route_dec(route_enc(m)) == Some(m),
{
    let b = route_enc(m);
    let idt = id_text(m.id);
    let ct = id_text(m.crag_id);
    lemma_id_text_ascii(m.id);
    lemma_ascii_utf8_wf(idt);
    lemma_id_text_ascii(m.crag_id);
    lemma_ascii_utf8_wf(ct);
    assert(forall|j: int| 0 <= j < key_id().len() ==> key_id()[j] < 0x80);
    lemma_ascii_utf8_wf(key_id());
    assert(forall|j: int| 0 <= j < key_crag_id().len() ==> key_crag_id()[j] < 0x80);
    lemma_ascii_utf8_wf(key_crag_id());
    assert(forall|j: int| 0 <= j < key_name().len() ==> key_name()[j] < 0x80);
    lemma_ascii_utf8_wf(key_name());
    assert(b =~= seq![123u8] + member_text(key_id(), idt) + seq![44u8] + member_text(
        key_crag_id(),
        ct,
    ) + seq![44u8] + member_text(key_name(), m.name) + seq![125u8]);
    lemma_three_member_object_reads(b, key_id(), idt, key_crag_id(), ct, key_name(), m.name);
    let ms = seq![(key_id(), idt), (key_crag_id(), ct), (key_name(), m.name)];
    assert(key_crag_id() != key_id()) by {
        assert(key_crag_id().len() != key_id().len());
    }
    assert(key_name() != key_id()) by {
        assert(key_name().len() != key_id().len());
    }
    assert(key_name() != key_crag_id()) by {
        assert(key_name().len() != key_crag_id().len());
    }
    let full = Some((Some(idt), Some(ct), Some(m.name)));
    assert(route_fold(ms, 3, Some(idt), Some(ct), Some(m.name)) == full);
    assert(route_fold(ms, 2, Some(idt), Some(ct), None) == full);
    assert(route_fold(ms, 1, Some(idt), None, None) == full);
    assert(route_fold(ms, 0, None, None, None) == full);
    lemma_id_text_round_trip(m.id);
    lemma_id_text_round_trip(m.crag_id);
    assert(route_of_members(ms) matches Some(r) && r =~= m);
}

} // verus!
