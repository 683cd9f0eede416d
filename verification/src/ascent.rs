//! Ascents: records that a route was climbed on a given calendar day.

use vstd::prelude::*;

verus! {

use crate::crag::key_id;
use crate::crag::key_id_bytes;
use crate::dates::date_of_text;
use crate::dates::date_text;
use crate::dates::format_date;
use crate::dates::month_length;
use crate::dates::parse_date;
use crate::dates::DateVal;
use crate::entity::bytes_eq;
use crate::entity::opt_view;
use crate::entity::Entity;
use crate::ids::format_id;
use crate::ids::id_of_text;
use crate::ids::id_text;
use crate::ids::parse_id;
use crate::json::body_members;
use crate::json::push_str_text;
use crate::json::read_body_members;
use crate::json::str_text;
use crate::dates::lemma_date_round_trip;
use crate::ids::lemma_id_text_round_trip;
use crate::json::lemma_three_member_object_reads;
use crate::json::lemma_ascii_utf8_wf;
use crate::json::member_text;
use crate::dates::lemma_date_text_ascii;
use crate::ids::lemma_id_text_ascii;

/// A recorded climb: a row of the `ascent` table.  The route it refers
/// to is referenced by identifier and not checked here.
pub struct Ascent {
    pub id: u128,
    pub route_id: u128,
    pub date: DateVal,
}

/// The mathematical model of an ascent.
#[verifier::ext_equal]
pub ghost struct AscentM {
    pub id: u128,
    pub route_id: u128,
    pub date: DateVal,
}

impl View for Ascent {
    type V = AscentM;

    open spec fn view(&self) -> AscentM {
        AscentM { id: self.id, route_id: self.route_id, date: self.date }
    }
}

pub open spec fn key_route_id() -> Seq<u8> {
    seq![114u8, 111u8, 117u8, 116u8, 101u8, 95u8, 105u8, 100u8]
}

fn key_route_id_bytes() -> (r: Vec<u8>)
    ensures
        r@ == key_route_id(),
{
    let mut v: Vec<u8> = Vec::new();
    v.push(114);
    v.push(111);
    v.push(117);
    v.push(116);
    v.push(101);
    v.push(95);
    v.push(105);
    v.push(100);
    proof {
        assert(v@ =~= key_route_id());
    }
    v
}

pub open spec fn key_date() -> Seq<u8> {
    seq![100u8, 97u8, 116u8, 101u8]
}

fn key_date_bytes() -> (r: Vec<u8>)
    ensures
        r@ == key_date(),
{
    let mut v: Vec<u8> = Vec::new();
    v.push(100);
    v.push(97);
    v.push(116);
    v.push(101);
    proof {
        assert(v@ =~= key_date());
    }
    v
}

/// The JSON object an ascent is written as.
pub open spec fn ascent_enc(m: AscentM) -> Seq<u8> {
    seq![123u8] + str_text(key_id()) + seq![58u8] + str_text(id_text(m.id)) + seq![44u8]
        + str_text(key_route_id()) + seq![58u8] + str_text(id_text(m.route_id)) + seq![44u8]
        + str_text(key_date()) + seq![58u8] + str_text(date_text(m.date)) + seq![125u8]
}

/// Fold the members of a body into the three optional fields of an
/// ascent, rejecting unknown and repeated keys.
pub open spec fn ascent_fold(
    ms: Seq<(Seq<u8>, Seq<u8>)>,
    i: int,
    id: Option<Seq<u8>>,
    route_id: Option<Seq<u8>>,
    date: Option<Seq<u8>>,
) -> Option<(Option<Seq<u8>>, Option<Seq<u8>>, Option<Seq<u8>>)>
    decreases ms.len() - i,
{
    if !(0 <= i < ms.len()) {
        Some((id, route_id, date))
    } else {
        let kv = ms[i];
        if kv.0 == key_id() {
            if id is Some {
                None
            } else {
                ascent_fold(ms, i + 1, Some(kv.1), route_id, date)
            }
        } else if kv.0 == key_route_id() {
            if route_id is Some {
                None
            } else {
                ascent_fold(ms, i + 1, id, Some(kv.1), date)
            }
        } else if kv.0 == key_date() {
            if date is Some {
                None
            } else {
                ascent_fold(ms, i + 1, id, route_id, Some(kv.1))
            }
        } else {
            None
        }
    }
}

/// The ascent a member list denotes: `route_id` and `date` required, the
/// identifier optional; identifier and date texts must be well-formed.
pub open spec fn ascent_of_members(ms: Seq<(Seq<u8>, Seq<u8>)>) -> Option<AscentM> {
    match ascent_fold(ms, 0, None, None, None) {
        None => None,
        Some((id, route_id, date)) => match (route_id, date) {
            (Some(rt), Some(dt)) => match (id_of_text(rt), date_of_text(dt)) {
                (Some(ri), Some(d)) => match id {
                    None => Some(AscentM { id: 0, route_id: ri, date: d }),
                    Some(t) => match id_of_text(t) {
                        None => None,
                        Some(v) => Some(AscentM { id: v, route_id: ri, date: d }),
                    },
                },
                _ => None,
            },
            _ => None,
        },
    }
}

/// The ascent a whole JSON body denotes.
pub open spec fn ascent_dec(s: Seq<u8>) -> Option<AscentM> {
    match body_members(s) {
        None => None,
        Some(ms) => ascent_of_members(ms),
    }
}

fn ascent_from_members(ms: &Vec<(Vec<u8>, Vec<u8>)>) -> (r: Option<Ascent>)
    ensures
        match r {
            Option::Some(e) => ascent_of_members(ms.deep_view()) == Option::Some(e@) && e@.date.wf(),
            Option::None => ascent_of_members(ms.deep_view()) is None,
        },
{
    let key_i = key_id_bytes();
    let key_r = key_route_id_bytes();
    let key_d = key_date_bytes();
    let mut id_t: Option<Vec<u8>> = None;
    let mut route_t: Option<Vec<u8>> = None;
    let mut date_t: Option<Vec<u8>> = None;
    let ghost msd = ms.deep_view();
    let mut i: usize = 0;
    while i < ms.len()
        invariant
            i <= ms.len(),
            msd == ms.deep_view(),
            key_i@ == key_id(),
            key_r@ == key_route_id(),
            key_d@ == key_date(),
            ascent_fold(msd, 0, None, None, None) == ascent_fold(
                msd,
                i as int,
                opt_view(id_t),
                opt_view(route_t),
                opt_view(date_t),
            ),
        decreases ms.len() - i,
    {
        proof {
            assert(msd[i as int] == (ms@[i as int].0@, ms@[i as int].1@));
        }
        let kv = &ms[i];
        if bytes_eq(kv.0.as_slice(), key_i.as_slice()) {
            if id_t.is_some() {
                return None;
            }
            id_t = Some(vstd::slice::slice_to_vec(kv.1.as_slice()));
        } else if bytes_eq(kv.0.as_slice(), key_r.as_slice()) {
            if route_t.is_some() {
                return None;
            }
            route_t = Some(vstd::slice::slice_to_vec(kv.1.as_slice()));
        } else if bytes_eq(kv.0.as_slice(), key_d.as_slice()) {
            if date_t.is_some() {
                return None;
            }
            date_t = Some(vstd::slice::slice_to_vec(kv.1.as_slice()));
        } else {
            return None;
        }
        i = i + 1;
    }
    let route_text = match route_t {
        None => {
            return None;
        },
        Some(c) => c,
    };
    let date_text_v = match date_t {
        None => {
            return None;
        },
        Some(d) => d,
    };
    let route_id: u128 = match parse_id(route_text.as_slice()) {
        None => {
            return None;
        },
        Some(c) => c,
    };
    let date: DateVal = match parse_date(date_text_v.as_slice()) {
        None => {
            return None;
        },
        Some(d) => d,
    };
    let id: u128 = match id_t {
        None => 0,
        Some(t) => match parse_id(t.as_slice()) {
            None => {
                return None;
            },
            Some(v) => v,
        },
    };
    Some(Ascent { id, route_id, date })
}

impl Entity for Ascent {
    /// A stored ascent always carries a valid calendar date.
    open spec fn m_wf(m: AscentM) -> bool {
        m.date.wf()
    }

    open spec fn m_id(m: AscentM) -> u128 {
        m.id
    }

    open spec fn m_with_id(m: AscentM, id: u128) -> AscentM {
        AscentM { id, ..m }
    }

    open spec fn m_enc(m: AscentM) -> Seq<u8> {
        ascent_enc(m)
    }

    open spec fn m_dec(s: Seq<u8>) -> Option<AscentM> {
        ascent_dec(s)
    }

    proof fn lemma_dec_wf(s: Seq<u8>) {
    }

    proof fn lemma_with_id(m: AscentM, id: u128) {
    }

    fn encode(&self) -> (r: Vec<u8>) {
        let mut out: Vec<u8> = Vec::new();
        out.push(123);
        let k0 = key_id_bytes();
        push_str_text(&mut out, k0.as_slice());
        out.push(58);
        let idt = format_id(self.id);
        push_str_text(&mut out, idt.as_slice());
        out.push(44);
        let k1 = key_route_id_bytes();
        push_str_text(&mut out, k1.as_slice());
        out.push(58);
        let rt = format_id(self.route_id);
        push_str_text(&mut out, rt.as_slice());
        out.push(44);
        let k2 = key_date_bytes();
        push_str_text(&mut out, k2.as_slice());
        out.push(58);
        let dt = format_date(self.date);
        push_str_text(&mut out, dt.as_slice());
        out.push(125);
        proof {
            assert(out@ =~= ascent_enc(self@));
        }
        out
    }

    fn decode(s: &[u8]) -> (r: Option<Ascent>) {
        let ms = read_body_members(s);
        match ms {
            None => None,
            Some(ms) => ascent_from_members(&ms),
        }
    }

    fn check_wf(&self) -> (r: bool) {
        let d = self.date;
        d.year <= 9999 && 1 <= d.month && d.month <= 12 && 1 <= d.day && d.day <= month_length(
            d.year,
            d.month,
        )
    }

    fn with_fresh_id(self, id: u128) -> (r: Ascent) {
        Ascent { id, route_id: self.route_id, date: self.date }
    }
}

} // verus!

verus! {

/// Writing an ascent with a valid date and reading the text back yields
/// the same record.
#[verifier::rlimit(100)]
pub proof fn lemma_ascent_round_trip(m: AscentM)
    requires
        m.date.wf(),
    ensures
        ascent_dec(ascent_enc(m)) == Some(m),
{
    let b = ascent_enc(m);
    let idt = id_text(m.id);
    let rt = id_text(m.route_id);
    let dt = date_text(m.date);
    lemma_id_text_ascii(m.id);
    lemma_ascii_utf8_wf(idt);
    lemma_id_text_ascii(m.route_id);
    lemma_ascii_utf8_wf(rt);
    lemma_date_text_ascii(m.date);
    lemma_ascii_utf8_wf(dt);
    assert(forall|j: int| 0 <= j < key_id().len() ==> key_id()[j] < 0x80);
    lemma_ascii_utf8_wf(key_id());
    assert(forall|j: int| 0 <= j < key_route_id().len() ==> key_route_id()[j] < 0x80);
    lemma_ascii_utf8_wf(key_route_id());
    assert(forall|j: int| 0 <= j < key_date().len() ==> key_date()[j] < 0x80);
    lemma_ascii_utf8_wf(key_date());
    assert(b =~= seq![123u8] + member_text(key_id(), idt) + seq![44u8] + member_text(
        key_route_id(),
        rt,
    ) + seq![44u8] + member_text(key_date(), dt) + seq![125u8]);
    lemma_three_member_object_reads(b, key_id(), idt, key_route_id(), rt, key_date(), dt);
    let ms = seq![(key_id(), idt), (key_route_id(), rt), (key_date(), dt)];
    assert(key_route_id() != key_id()) by {
        assert(key_route_id().len() != key_id().len());
    }
    assert(key_date() != key_id()) by {
        assert(key_date().len() != key_id().len());
    }
    assert(key_date() != key_route_id()) by {
        assert(key_date().len() != key_route_id().len());
    }
    let full = Some((Some(idt), Some(rt), Some(dt)));
    assert(ascent_fold(ms, 3, Some(idt), Some(rt), Some(dt)) == full);
    assert(ascent_fold(ms, 2, Some(idt), Some(rt), None) == full);
    assert(ascent_fold(ms, 1, Some(idt), None, None) == full);
    assert(ascent_fold(ms, 0, None, None, None) == full);
    lemma_id_text_round_trip(m.id);
    lemma_id_text_round_trip(m.route_id);
    lemma_date_round_trip(m.date);
    assert(ascent_of_members(ms) matches Some(r) && r =~= m);
}

} // verus!
