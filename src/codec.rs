//! The byte form of records and of container buckets: integers as eight
//! little-endian bytes, strings as their UTF-8 byte count then their bytes,
//! tags as one byte, lists as their length then their items.
use vstd::prelude::*;
use vstd::bytes::{
    lemma_auto_spec_u64_to_from_le_bytes, spec_u64_from_le_bytes, spec_u64_to_le_bytes,
    u64_from_le_bytes, u64_to_le_bytes,
};
use vstd::slice::{slice_subrange, slice_to_vec};
use vstd::utf8::{decode_utf8, encode_utf8, encode_utf8_decode_utf8, encode_utf8_valid_utf8, decode_utf8_encode_utf8, valid_utf8};
use vstd::string::*;
use crate::entities::{
    accreditations_view, authorizations_view, contacts_view, data_view, opt_view, versions_view,
    AccreditationEntry, AccreditationModel, AddressModel, Agent, AgentModel, AuthorizationEntry,
    AuthorizationModel, AuthorizationRole, CertificateDatum, CertificateModel, CertificateRecord,
    ContactInfo, ContactModel, DatumModel, DetailsModel, FactoryAddress, OrganizationDetails,
    OrganizationKind, OrganizationModel, OrganizationRecord, RequestModel, RequestRecord, StandardModel,
    StandardRecord, Status, VersionEntry, VersionModel,
};

verus! {

/// `e` stands in `b` from position `pos` on.
pub open spec fn encodes_at(b: Seq<u8>, pos: int, e: Seq<u8>) -> bool {
    0 <= pos && pos + e.len() <= b.len() && b.subrange(pos, pos + e.len()) == e
}

pub proof fn lemma_encodes_concat(b: Seq<u8>, pos: int, e1: Seq<u8>, e2: Seq<u8>)
    ensures
        encodes_at(b, pos, e1 + e2) <==> (encodes_at(b, pos, e1) && encodes_at(b, pos + e1.len(), e2)),
{
    let e = e1 + e2;
    if encodes_at(b, pos, e) {
        let w = b.subrange(pos, pos + e.len());
        assert(w == e);
        assert(b.subrange(pos, pos + e1.len()) =~= w.subrange(0, e1.len() as int));
        assert(e.subrange(0, e1.len() as int) =~= e1);
        assert(b.subrange(pos + e1.len(), pos + e1.len() + e2.len()) =~= w.subrange(
            e1.len() as int,
            e.len() as int,
        ));
        assert(e.subrange(e1.len() as int, e.len() as int) =~= e2);
    }
    if encodes_at(b, pos, e1) && encodes_at(b, pos + e1.len(), e2) {
        assert(b.subrange(pos, pos + (e1 + e2).len()) =~= b.subrange(pos, pos + e1.len()) + b.subrange(
            pos + e1.len(),
            pos + e1.len() + e2.len(),
        ));
    }
}

/// A value with a byte form, and a decoder that accepts exactly that form.
pub trait Codec: View + Sized {
    spec fn enc(v: Self::V) -> Seq<u8>;

    /// Every form takes at least one byte.
    proof fn lemma_enc_nonempty(v: Self::V)
        ensures
            Self::enc(v).len() > 0,
    ;

    fn encode_into(&self, out: &mut Vec<u8>)
        ensures
            final(out)@ == old(out)@ + Self::enc(self@),
    ;

    /// Reads a value at `pos`: the bytes there are its form, and no other
    /// value has a form there; or no value has a form there.
    fn decode_from(b: &[u8], pos: usize) -> (r: Option<(Self, usize)>)
        ensures
            match r {
                Some((x, next)) => {
                    &&& next == pos + Self::enc(x@).len()
                    &&& encodes_at(b@, pos as int, Self::enc(x@))
                    &&& forall|m: Self::V| #[trigger] encodes_at(b@, pos as int, Self::enc(m)) ==> m == x@
                },
                None => forall|m: Self::V| !#[trigger] encodes_at(b@, pos as int, Self::enc(m)),
            },
    ;
}

pub open spec fn u64_enc(x: u64) -> Seq<u8> {
    spec_u64_to_le_bytes(x)
}

pub fn encode_u64(x: u64, out: &mut Vec<u8>)
    ensures
        final(out)@ == old(out)@ + u64_enc(x),
{
    let mut bytes = u64_to_le_bytes(x);
    out.append(&mut bytes);
}

pub fn decode_u64(b: &[u8], pos: usize) -> (r: Option<(u64, usize)>)
    ensures
        match r {
            Some((x, next)) => {
                &&& next == pos + 8
                &&& encodes_at(b@, pos as int, u64_enc(x))
                &&& forall|m: u64| #[trigger] encodes_at(b@, pos as int, u64_enc(m)) ==> m == x
            },
            None => forall|m: u64| !#[trigger] encodes_at(b@, pos as int, u64_enc(m)),
        },
{
    proof {
        lemma_auto_spec_u64_to_from_le_bytes();
    }
    if pos > b.len() || b.len() - pos < 8 {
        return None;
    }
    let s = slice_subrange(b, pos, pos + 8);
    let x = u64_from_le_bytes(s);
    proof {
        assert(spec_u64_to_le_bytes(spec_u64_from_le_bytes(s@)) == s@);
        assert forall|m: u64| #[trigger] encodes_at(b@, pos as int, u64_enc(m)) implies m == x by {
            assert(spec_u64_from_le_bytes(spec_u64_to_le_bytes(m)) == m);
        }
    }
    Some((x, pos + 8))
}

/// A string: its UTF-8 byte count, then its UTF-8 bytes.
pub open spec fn str_enc(s: Seq<char>) -> Seq<u8> {
    u64_enc(encode_utf8(s).len() as u64) + encode_utf8(s)
}

/// Relies on std's `String::from_utf8`: it accepts exactly the byte
/// strings that are valid UTF-8, and then holds the characters they encode.
#[verifier::external_body]
fn string_from_utf8(bytes: Vec<u8>) -> (r: Option<String>)
    ensures
        match r {
            Some(s) => valid_utf8(bytes@) && s@ == decode_utf8(bytes@),
            None => !valid_utf8(bytes@),
        },
{
    String::from_utf8(bytes).ok()
}

pub fn encode_str(s: &String, out: &mut Vec<u8>)
    ensures
        final(out)@ == old(out)@ + str_enc(s@),
{
    let bytes = s.as_str().as_bytes();
    encode_u64(bytes.len() as u64, out);
    let mut v = slice_to_vec(bytes);
    out.append(&mut v);
    assert(final(out)@ =~= old(out)@ + str_enc(s@));
}

pub fn decode_str(b: &[u8], pos: usize) -> (r: Option<(String, usize)>)
    ensures
        match r {
            Some((x, next)) => {
                &&& next == pos + str_enc(x@).len()
                &&& encodes_at(b@, pos as int, str_enc(x@))
                &&& forall|m: Seq<char>| #[trigger] encodes_at(b@, pos as int, str_enc(m)) ==> m == x@
            },
            None => forall|m: Seq<char>| !#[trigger] encodes_at(b@, pos as int, str_enc(m)),
        },
{
    broadcast use encode_utf8_decode_utf8, encode_utf8_valid_utf8, decode_utf8_encode_utf8;

    proof {
        lemma_auto_spec_u64_to_from_le_bytes();
    }
    let total = b.len();
    let (len, body_start) = match decode_u64(b, pos) {
        Some(t) => t,
        None => {
            proof {
                assert forall|m: Seq<char>| !#[trigger] encodes_at(b@, pos as int, str_enc(m)) by {
                    lemma_encodes_concat(b@, pos as int, u64_enc(encode_utf8(m).len() as u64), encode_utf8(m));
                }
            }
            return None;
        },
    };
    if len > (b.len() - body_start) as u64 {
        proof {
            assert forall|m: Seq<char>| !#[trigger] encodes_at(b@, pos as int, str_enc(m)) by {
                lemma_encodes_concat(b@, pos as int, u64_enc(encode_utf8(m).len() as u64), encode_utf8(m));
            }
        }
        return None;
    }
    let end = body_start + len as usize;
    let raw = slice_to_vec(slice_subrange(b, body_start, end));
    let ghost raw_v = raw@;
    match string_from_utf8(raw) {
        None => {
            proof {
                assert forall|m: Seq<char>| !#[trigger] encodes_at(b@, pos as int, str_enc(m)) by {
                    lemma_encodes_concat(b@, pos as int, u64_enc(encode_utf8(m).len() as u64), encode_utf8(m));
                    if encodes_at(b@, pos as int, str_enc(m)) {
                        assert(encode_utf8(m).len() as u64 == len);
                        assert(raw_v == encode_utf8(m));
                    }
                }
            }
            None
        },
        Some(s) => {
            proof {
                assert(encode_utf8(s@) == raw_v);
                lemma_encodes_concat(b@, pos as int, u64_enc(encode_utf8(s@).len() as u64), encode_utf8(s@));
                assert forall|m: Seq<char>| #[trigger] encodes_at(b@, pos as int, str_enc(m)) implies m == s@ by {
                    lemma_encodes_concat(b@, pos as int, u64_enc(encode_utf8(m).len() as u64), encode_utf8(m));
                    assert(encode_utf8(m).len() as u64 == len);
                    assert(raw_v == encode_utf8(m));
                }
            }
            Some((s, end))
        },
    }
}

/// The values of a list.
pub open spec fn views<T: View>(v: Seq<T>) -> Seq<T::V> {
    v.map_values(|x: T| x@)
}

/// The items of a list, one after another.
pub open spec fn items_enc<T: Codec>(ms: Seq<T::V>) -> Seq<u8>
    decreases ms.len(),
{
    if ms.len() == 0 {
        Seq::empty()
    } else {
        items_enc::<T>(ms.drop_last()) + T::enc(ms.last())
    }
}

/// A list: its length, then its items.
pub open spec fn list_enc<T: Codec>(ms: Seq<T::V>) -> Seq<u8> {
    u64_enc(ms.len() as u64) + items_enc::<T>(ms)
}

pub fn encode_list<T: Codec>(v: &Vec<T>, out: &mut Vec<u8>)
    ensures
        final(out)@ == old(out)@ + list_enc::<T>(views(v@)),
{
    let ghost start = out@;
    encode_u64(v.len() as u64, out);
    let ghost head = out@;
    let mut i: usize = 0;
    while i < v.len()
        invariant
            i <= v@.len(),
            head == start + u64_enc(v@.len() as u64),
            out@ == head + items_enc::<T>(views(v@.subrange(0, i as int))),
        decreases v@.len() - i,
    {
        v[i].encode_into(out);
        proof {
            let p = views(v@.subrange(0, i + 1));
            assert(p.drop_last() =~= views(v@.subrange(0, i as int)));
            assert(p.last() == v@[i as int]@);
        }
        i += 1;
    }
    assert(v@.subrange(0, i as int) =~= v@);
    assert(final(out)@ =~= old(out)@ + list_enc::<T>(views(v@)));
}

proof fn lemma_items_len<T: Codec>(ms: Seq<T::V>)
    ensures
        items_enc::<T>(ms).len() >= ms.len(),
    decreases ms.len(),
{
    if ms.len() > 0 {
        lemma_items_len::<T>(ms.drop_last());
        T::lemma_enc_nonempty(ms.last());
    }
}

/// A list that stands in `b` has fewer items than `b` has bytes.
proof fn lemma_list_len<T: Codec>(b: Seq<u8>, pos: int, m: Seq<T::V>)
    requires
        encodes_at(b, pos, list_enc::<T>(m)),
        b.len() <= usize::MAX,
    ensures
        m.len() as u64 == m.len(),
{
    lemma_items_len::<T>(m);
}

proof fn lemma_items_prefix<T: Codec>(ms: Seq<T::V>, i: int)
    requires
        0 <= i < ms.len(),
    ensures
        items_enc::<T>(ms.subrange(0, i + 1)) == items_enc::<T>(ms.subrange(0, i)) + T::enc(ms[i]),
{
    let p = ms.subrange(0, i + 1);
    assert(p.drop_last() =~= ms.subrange(0, i));
}

proof fn lemma_items_split<T: Codec>(ms: Seq<T::V>, i: int)
    requires
        0 <= i <= ms.len(),
    ensures
        items_enc::<T>(ms) == items_enc::<T>(ms.subrange(0, i)) + items_enc::<T>(ms.subrange(i, ms.len() as int)),
    decreases ms.len() - i,
{
    if i == ms.len() {
        assert(ms.subrange(0, i) =~= ms);
        assert(items_enc::<T>(ms.subrange(i, ms.len() as int)) =~= Seq::<u8>::empty());
        assert(items_enc::<T>(ms) + Seq::<u8>::empty() =~= items_enc::<T>(ms));
    } else {
        lemma_items_split::<T>(ms, i + 1);
        lemma_items_prefix::<T>(ms, i);
        let tail = ms.subrange(i, ms.len() as int);
        lemma_items_tail::<T>(tail);
        assert(tail.drop_first() =~= ms.subrange(i + 1, ms.len() as int));
        assert(items_enc::<T>(ms.subrange(0, i)) + T::enc(ms[i]) + items_enc::<T>(ms.subrange(i + 1, ms.len() as int))
            =~= items_enc::<T>(ms.subrange(0, i)) + (T::enc(ms[i]) + items_enc::<T>(ms.subrange(i + 1, ms.len() as int))));
    }
}

proof fn lemma_items_tail<T: Codec>(ms: Seq<T::V>)
    requires
        ms.len() > 0,
    ensures
        items_enc::<T>(ms) == T::enc(ms[0]) + items_enc::<T>(ms.drop_first()),
    decreases ms.len(),
{
    if ms.len() == 1 {
        assert(ms.drop_last() =~= Seq::<T::V>::empty());
        assert(ms.drop_first() =~= Seq::<T::V>::empty());
        assert(T::enc(ms[0]) + Seq::<u8>::empty() =~= T::enc(ms[0]));
        assert(Seq::<u8>::empty() + T::enc(ms.last()) =~= T::enc(ms[0]));
    } else {
        lemma_items_tail::<T>(ms.drop_last());
        assert(ms.drop_last().drop_first() =~= ms.drop_first().drop_last());
        assert(ms.drop_first().last() == ms.last());
        assert(ms.drop_last()[0] == ms[0]);
        assert(T::enc(ms[0]) + items_enc::<T>(ms.drop_first().drop_last()) + T::enc(ms.last()) =~= T::enc(ms[0])
            + (items_enc::<T>(ms.drop_first().drop_last()) + T::enc(ms.last())));
    }
}

pub fn decode_list<T: Codec>(b: &[u8], pos: usize) -> (r: Option<(Vec<T>, usize)>)
    ensures
        match r {
            Some((x, next)) => {
                &&& next == pos + list_enc::<T>(views(x@)).len()
                &&& encodes_at(b@, pos as int, list_enc::<T>(views(x@)))
                &&& forall|m: Seq<T::V>| #[trigger] encodes_at(b@, pos as int, list_enc::<T>(m)) ==> m == views(x@)
            },
            None => forall|m: Seq<T::V>| !#[trigger] encodes_at(b@, pos as int, list_enc::<T>(m)),
        },
{
    proof {
        lemma_auto_spec_u64_to_from_le_bytes();
    }
    let (count, body_start) = match decode_u64(b, pos) {
        Some(t) => t,
        None => {
            proof {
                assert forall|m: Seq<T::V>| !#[trigger] encodes_at(b@, pos as int, list_enc::<T>(m)) by {
                    lemma_encodes_concat(b@, pos as int, u64_enc(m.len() as u64), items_enc::<T>(m));
                }
            }
            return None;
        },
    };
    let mut out: Vec<T> = Vec::new();
    let mut cur = body_start;
    let mut i: u64 = 0;
    let total = b.len();
    proof {
        assert(views(out@) =~= Seq::<T::V>::empty());
        assert(b@.subrange(body_start as int, body_start as int) =~= Seq::<u8>::empty());
        assert forall|m: Seq<T::V>|
            #[trigger] encodes_at(b@, pos as int, list_enc::<T>(m)) implies m.len() == count
                && m.subrange(0, 0) == views(out@) by {
            lemma_encodes_concat(b@, pos as int, u64_enc(m.len() as u64), items_enc::<T>(m));
            lemma_list_len::<T>(b@, pos as int, m);
            assert(m.subrange(0, 0) =~= Seq::<T::V>::empty());
        }
    }
    while i < count
        invariant
            total == b@.len(),
            i <= count,
            out@.len() == i,
            body_start == pos + 8,
            encodes_at(b@, pos as int, u64_enc(count)),
            forall|m: u64| #[trigger] encodes_at(b@, pos as int, u64_enc(m)) ==> m == count,
            cur == body_start + items_enc::<T>(views(out@)).len(),
            encodes_at(b@, body_start as int, items_enc::<T>(views(out@))),
            forall|m: Seq<T::V>|
                #[trigger] encodes_at(b@, pos as int, list_enc::<T>(m)) ==> m.len() == count
                    && m.subrange(0, i as int) == views(out@),
        decreases count - i,
    {
        match T::decode_from(b, cur) {
            None => {
                proof {
                    assert forall|m: Seq<T::V>| !#[trigger] encodes_at(b@, pos as int, list_enc::<T>(m)) by {
                        if encodes_at(b@, pos as int, list_enc::<T>(m)) {
                            lemma_encodes_concat(b@, pos as int, u64_enc(m.len() as u64), items_enc::<T>(m));
                            lemma_items_split::<T>(m, i as int);
                            lemma_items_tail::<T>(m.subrange(i as int, m.len() as int));
                            let pre = items_enc::<T>(m.subrange(0, i as int));
                            let tail = m.subrange(i as int, m.len() as int);
                            assert(m.subrange(0, i as int) == views(out@));
                            assert(pre == items_enc::<T>(views(out@)));
                            lemma_auto_spec_u64_to_from_le_bytes();
                            lemma_auto_spec_u64_to_from_le_bytes();
                        assert(u64_enc(m.len() as u64).len() == 8);
                            lemma_encodes_concat(b@, body_start as int, pre, items_enc::<T>(tail));
                            lemma_encodes_concat(b@, body_start + pre.len(), T::enc(tail[0]), items_enc::<T>(tail.drop_first()));
                            assert(encodes_at(b@, cur as int, T::enc(tail[0])));
                        }
                    }
                }
                return None;
            },
            Some((x, next)) => {
                let ghost before = out@;
                let ghost xv = x@;
                out.push(x);
                proof {
                    assert(views(out@) =~= views(before).push(xv));
                    assert(views(out@).drop_last() =~= views(before));
                    lemma_encodes_concat(b@, body_start as int, items_enc::<T>(views(before)), T::enc(xv));
                    assert forall|m: Seq<T::V>| #[trigger] encodes_at(b@, pos as int, list_enc::<T>(m)) implies m.len() == count
                        && m.subrange(0, i + 1) == views(out@) by {
                        lemma_encodes_concat(b@, pos as int, u64_enc(m.len() as u64), items_enc::<T>(m));
                        lemma_items_split::<T>(m, i as int);
                        lemma_items_tail::<T>(m.subrange(i as int, m.len() as int));
                        let pre = items_enc::<T>(m.subrange(0, i as int));
                        let tail = m.subrange(i as int, m.len() as int);
                        assert(m.subrange(0, i as int) == views(before));
                        assert(pre == items_enc::<T>(views(before)));
                        lemma_auto_spec_u64_to_from_le_bytes();
                        assert(u64_enc(m.len() as u64).len() == 8);
                        lemma_encodes_concat(b@, body_start as int, pre, items_enc::<T>(tail));
                        lemma_encodes_concat(b@, body_start + pre.len(), T::enc(tail[0]), items_enc::<T>(tail.drop_first()));
                        assert(encodes_at(b@, cur as int, T::enc(tail[0])));
                        assert(tail[0] == xv);
                        assert(m.subrange(0, i + 1) =~= m.subrange(0, i as int).push(tail[0]));
                    }
                }
                cur = next;
                i += 1;
            },
        }
    }
    proof {
        lemma_encodes_concat(b@, pos as int, u64_enc(count), items_enc::<T>(views(out@)));
        assert(views(out@).len() == count);
        assert forall|m: Seq<T::V>| #[trigger] encodes_at(b@, pos as int, list_enc::<T>(m)) implies m == views(out@) by {
            assert(m.subrange(0, i as int) =~= m);
        }
    }
    Some((out, cur))
}

/// What decoding a whole container buffer promises.
pub open spec fn container_decoded<T: Codec>(b: Seq<u8>, r: Result<Vec<T>, Malformed>) -> bool {
    match r {
        Ok(v) => list_enc::<T>(views(v@)) == b && forall|m: Seq<T::V>| #[trigger] list_enc::<T>(m) == b ==> m == views(v@),
        Err(_) => forall|m: Seq<T::V>| #[trigger] list_enc::<T>(m) != b,
    }
}

/// Bytes that are no container of the kind asked for.
#[derive(Debug)]
pub struct Malformed;

/// The bytes of a container bucket: its entries, in order.
pub fn encode_container<T: Codec>(entries: &Vec<T>) -> (r: Vec<u8>)
    ensures
        r@ == list_enc::<T>(views(entries@)),
{
    let mut out: Vec<u8> = Vec::new();
    encode_list(entries, &mut out);
    assert(out@ =~= list_enc::<T>(views(entries@)));
    out
}

/// Reads a container bucket; every byte must belong to it.
pub fn decode_container<T: Codec>(b: &[u8]) -> (r: Result<Vec<T>, Malformed>)
    ensures
        container_decoded::<T>(b@, r),
{
    match decode_list::<T>(b, 0) {
        None => {
            proof {
                assert forall|m: Seq<T::V>| #[trigger] list_enc::<T>(m) != b@ by {
                    if list_enc::<T>(m) == b@ {
                        assert(b@.subrange(0, b@.len() as int) =~= b@);
                        assert(encodes_at(b@, 0, list_enc::<T>(m)));
                    }
                }
            }
            Err(Malformed)
        },
        Some((v, next)) => {
            if next != b.len() {
                proof {
                    assert forall|m: Seq<T::V>| #[trigger] list_enc::<T>(m) != b@ by {
                        if list_enc::<T>(m) == b@ {
                            assert(b@.subrange(0, b@.len() as int) =~= b@);
                            assert(encodes_at(b@, 0, list_enc::<T>(m)));
                        }
                    }
                }
                return Err(Malformed);
            }
            proof {
                assert(b@.subrange(0, next as int) == list_enc::<T>(views(v@)));
                assert(b@.subrange(0, b@.len() as int) =~= b@);
                assert forall|m: Seq<T::V>| #[trigger] list_enc::<T>(m) == b@ implies m == views(v@) by {
                    assert(encodes_at(b@, 0, list_enc::<T>(m)));
                }
            }
            Ok(v)
        },
    }
}

/// Decoding the bytes of a container gives back its entries: a decoder
/// that keeps its contract accepts them, and with exactly those entries.
pub proof fn lemma_container_round_trip<T: Codec>(entries: Seq<T::V>, r: Result<Vec<T>, Malformed>)
    requires
        container_decoded::<T>(list_enc::<T>(entries), r),
    ensures
        r is Ok,
        views(r->Ok_0@) == entries,
{
}

/// An optional string: a zero byte, or a one byte then the string.
pub open spec fn opt_enc(o: Option<Seq<char>>) -> Seq<u8> {
    match o {
        None => seq![0u8],
        Some(s) => seq![1u8] + str_enc(s),
    }
}

pub fn encode_opt_str(o: &Option<String>, out: &mut Vec<u8>)
    ensures
        final(out)@ == old(out)@ + opt_enc(opt_view(*o)),
{
    match o {
        None => {
            out.push(0u8);
        },
        Some(s) => {
            out.push(1u8);
            encode_str(s, out);
        },
    }
    assert(final(out)@ =~= old(out)@ + opt_enc(opt_view(*o)));
}

pub fn decode_opt_str(b: &[u8], pos: usize) -> (r: Option<(Option<String>, usize)>)
    ensures
        match r {
            Some((x, next)) => {
                &&& next == pos + opt_enc(opt_view(x)).len()
                &&& encodes_at(b@, pos as int, opt_enc(opt_view(x)))
                &&& forall|m: Option<Seq<char>>| #[trigger] encodes_at(b@, pos as int, opt_enc(m)) ==> m == opt_view(x)
            },
            None => forall|m: Option<Seq<char>>| !#[trigger] encodes_at(b@, pos as int, opt_enc(m)),
        },
{
    if pos >= b.len() {
        return None;
    }
    let t = b[pos];
    assert(b@.subrange(pos as int, pos + 1) =~= seq![t]);
    if t == 0 {
        proof {
            assert forall|m: Option<Seq<char>>| #[trigger] encodes_at(b@, pos as int, opt_enc(m)) implies m == opt_view(None::<String>) by {
                if m is Some {
                    lemma_encodes_concat(b@, pos as int, seq![1u8], str_enc(m->Some_0));
                    assert(b@.subrange(pos as int, pos + 1)[0] == 1u8);
                }
            }
        }
        Some((None, pos + 1))
    } else if t == 1 {
        match decode_str(b, pos + 1) {
            None => {
                proof {
                    assert forall|m: Option<Seq<char>>| !#[trigger] encodes_at(b@, pos as int, opt_enc(m)) by {
                        if encodes_at(b@, pos as int, opt_enc(m)) {
                            if m is Some {
                                lemma_encodes_concat(b@, pos as int, seq![1u8], str_enc(m->Some_0));
                            } else {
                                assert(b@.subrange(pos as int, pos + 1)[0] == 0u8);
                            }
                        }
                    }
                }
                None
            },
            Some((s, next)) => {
                proof {
                    lemma_encodes_concat(b@, pos as int, seq![1u8], str_enc(s@));
                    assert forall|m: Option<Seq<char>>| #[trigger] encodes_at(b@, pos as int, opt_enc(m)) implies m == opt_view(Some(s)) by {
                        if m is Some {
                            lemma_encodes_concat(b@, pos as int, seq![1u8], str_enc(m->Some_0));
                        } else {
                            assert(b@.subrange(pos as int, pos + 1)[0] == 0u8);
                        }
                    }
                }
                Some((Some(s), next))
            },
        }
    } else {
        proof {
            assert forall|m: Option<Seq<char>>| !#[trigger] encodes_at(b@, pos as int, opt_enc(m)) by {
                if encodes_at(b@, pos as int, opt_enc(m)) {
                    if m is Some {
                        lemma_encodes_concat(b@, pos as int, seq![1u8], str_enc(m->Some_0));
                    }
                    assert(b@.subrange(pos as int, pos + 1)[0] == t);
                }
            }
        }
        None
    }
}

proof fn lemma_tag_at(b: Seq<u8>, pos: int, tag: u8, e: Seq<u8>)
    ensures
        encodes_at(b, pos, seq![tag] + e) ==> b[pos] == tag && encodes_at(b, pos + 1, e),
        encodes_at(b, pos, seq![tag]) ==> b[pos] == tag,
{
    lemma_encodes_concat(b, pos, seq![tag], e);
    if encodes_at(b, pos, seq![tag]) {
        assert(b.subrange(pos, pos + 1)[0] == b[pos]);
    }
}

impl Codec for OrganizationDetails {
    open spec fn enc(v: DetailsModel) -> Seq<u8> {
        match v {
            DetailsModel::NoDetails => seq![0u8],
            DetailsModel::Factory(a) => seq![1u8] + FactoryAddress::enc(a),
            DetailsModel::CertifyingBody(accs) => seq![2u8] + list_enc::<AccreditationEntry>(accs),
        }
    }

    proof fn lemma_enc_nonempty(v: DetailsModel) {
    }

    fn encode_into(&self, out: &mut Vec<u8>) {
        match self {
            OrganizationDetails::NoDetails => {
                out.push(0u8);
            },
            OrganizationDetails::Factory(a) => {
                out.push(1u8);
                a.encode_into(out);
            },
            OrganizationDetails::CertifyingBody(v) => {
                out.push(2u8);
                assert(accreditations_view(v@) =~= views(v@));
                encode_list(v, out);
            },
        }
        assert(final(out)@ =~= old(out)@ + Self::enc(self@));
    }

    fn decode_from(b: &[u8], pos: usize) -> (r: Option<(Self, usize)>) {
        if pos >= b.len() {
            return None;
        }
        let t = b[pos];
        assert(b@.subrange(pos as int, pos + 1) =~= seq![t]);
        if t == 0 {
            proof {
                assert forall|m: DetailsModel| #[trigger] encodes_at(b@, pos as int, Self::enc(m)) implies m == DetailsModel::NoDetails by {
                    match m {
                        DetailsModel::Factory(a) => {
                            lemma_tag_at(b@, pos as int, 1u8, FactoryAddress::enc(a));
                        },
                        DetailsModel::CertifyingBody(v) => {
                            lemma_tag_at(b@, pos as int, 2u8, list_enc::<AccreditationEntry>(v));
                        },
                        _ => {
                            lemma_tag_at(b@, pos as int, 0u8, Seq::empty());
                        },
                    }
                }
            }
            Some((OrganizationDetails::NoDetails, pos + 1))
        } else if t == 1 {
            match FactoryAddress::decode_from(b, pos + 1) {
                None => {
                    proof {
                        assert forall|m: DetailsModel| !#[trigger] encodes_at(b@, pos as int, Self::enc(m)) by {
                            match m {
                                DetailsModel::Factory(a) => {
                                    lemma_tag_at(b@, pos as int, 1u8, FactoryAddress::enc(a));
                                },
                                DetailsModel::CertifyingBody(v) => {
                                    lemma_tag_at(b@, pos as int, 2u8, list_enc::<AccreditationEntry>(v));
                                },
                                _ => {
                            lemma_tag_at(b@, pos as int, 0u8, Seq::empty());
                        },
                            }
                        }
                    }
                    None
                },
                Some((a, next)) => {
                    proof {
                        lemma_encodes_concat(b@, pos as int, seq![1u8], FactoryAddress::enc(a@));
                        assert forall|m: DetailsModel| #[trigger] encodes_at(b@, pos as int, Self::enc(m)) implies m == DetailsModel::Factory(a@) by {
                            match m {
                                DetailsModel::Factory(a2) => {
                                    lemma_tag_at(b@, pos as int, 1u8, FactoryAddress::enc(a2));
                                },
                                DetailsModel::CertifyingBody(v) => {
                                    lemma_tag_at(b@, pos as int, 2u8, list_enc::<AccreditationEntry>(v));
                                },
                                _ => {
                            lemma_tag_at(b@, pos as int, 0u8, Seq::empty());
                        },
                            }
                        }
                    }
                    Some((OrganizationDetails::Factory(a), next))
                },
            }
        } else if t == 2 {
            match decode_list::<AccreditationEntry>(b, pos + 1) {
                None => {
                    proof {
                        assert forall|m: DetailsModel| !#[trigger] encodes_at(b@, pos as int, Self::enc(m)) by {
                            match m {
                                DetailsModel::Factory(a) => {
                                    lemma_tag_at(b@, pos as int, 1u8, FactoryAddress::enc(a));
                                },
                                DetailsModel::CertifyingBody(v) => {
                                    lemma_tag_at(b@, pos as int, 2u8, list_enc::<AccreditationEntry>(v));
                                },
                                _ => {
                            lemma_tag_at(b@, pos as int, 0u8, Seq::empty());
                        },
                            }
                        }
                    }
                    None
                },
                Some((v, next)) => {
                    let ghost vv = views(v@);
                    assert(accreditations_view(v@) =~= views(v@));
                    proof {
                        lemma_encodes_concat(b@, pos as int, seq![2u8], list_enc::<AccreditationEntry>(vv));
                        assert forall|m: DetailsModel| #[trigger] encodes_at(b@, pos as int, Self::enc(m)) implies m == DetailsModel::CertifyingBody(vv) by {
                            match m {
                                DetailsModel::Factory(a2) => {
                                    lemma_tag_at(b@, pos as int, 1u8, FactoryAddress::enc(a2));
                                },
                                DetailsModel::CertifyingBody(v2) => {
                                    lemma_tag_at(b@, pos as int, 2u8, list_enc::<AccreditationEntry>(v2));
                                },
                                _ => {
                            lemma_tag_at(b@, pos as int, 0u8, Seq::empty());
                        },
                            }
                        }
                    }
                    Some((OrganizationDetails::CertifyingBody(v), next))
                },
            }
        } else {
            proof {
                assert forall|m: DetailsModel| !#[trigger] encodes_at(b@, pos as int, Self::enc(m)) by {
                    match m {
                        DetailsModel::Factory(a) => {
                            lemma_tag_at(b@, pos as int, 1u8, FactoryAddress::enc(a));
                        },
                        DetailsModel::CertifyingBody(v) => {
                            lemma_tag_at(b@, pos as int, 2u8, list_enc::<AccreditationEntry>(v));
                        },
                        _ => {
                            lemma_tag_at(b@, pos as int, 0u8, Seq::empty());
                        },
                    }
                }
            }
            None
        }
    }
}

impl View for AuthorizationRole {
    type V = AuthorizationRole;

    open spec fn view(&self) -> AuthorizationRole {
        *self
    }
}

impl Codec for AuthorizationRole {
    open spec fn enc(v: AuthorizationRole) -> Seq<u8> {
        seq![match v {
            AuthorizationRole::UnsetRole => 0u8,
            AuthorizationRole::Admin => 1u8,
            AuthorizationRole::Transactor => 2u8,
        }]
    }

    proof fn lemma_enc_nonempty(v: AuthorizationRole) {
    }

    fn encode_into(&self, out: &mut Vec<u8>) {
        let t: u8 = match self {
            AuthorizationRole::UnsetRole => 0u8,
            AuthorizationRole::Admin => 1u8,
            AuthorizationRole::Transactor => 2u8,
        };
        out.push(t);
        assert(final(out)@ =~= old(out)@ + Self::enc(self@));
    }

    fn decode_from(b: &[u8], pos: usize) -> (r: Option<(Self, usize)>) {
        if pos >= b.len() {
            return None;
        }
        let x = match b[pos] {
            0 => AuthorizationRole::UnsetRole,
            1 => AuthorizationRole::Admin,
            2 => AuthorizationRole::Transactor,
            _ => {
                proof {
                    assert forall|m: AuthorizationRole| !#[trigger] encodes_at(b@, pos as int, Self::enc(m)) by {
                        if encodes_at(b@, pos as int, Self::enc(m)) {
                            assert(b@.subrange(pos as int, pos + 1)[0] == b@[pos as int]);
                        }
                    }
                }
                return None;
            },
        };
        proof {
            assert(b@.subrange(pos as int, pos + 1) =~= seq![b@[pos as int]]);
            assert forall|m: AuthorizationRole| #[trigger] encodes_at(b@, pos as int, Self::enc(m)) implies m == x by {
                assert(b@.subrange(pos as int, pos + 1)[0] == b@[pos as int]);
            }
        }
        Some((x, pos + 1))
    }
}

impl View for OrganizationKind {
    type V = OrganizationKind;

    open spec fn view(&self) -> OrganizationKind {
        *self
    }
}

impl Codec for OrganizationKind {
    open spec fn enc(v: OrganizationKind) -> Seq<u8> {
        seq![match v {
            OrganizationKind::UnsetType => 0u8,
            OrganizationKind::StandardsBody => 1u8,
            OrganizationKind::CertifyingBody => 2u8,
            OrganizationKind::Factory => 3u8,
        }]
    }

    proof fn lemma_enc_nonempty(v: OrganizationKind) {
    }

    fn encode_into(&self, out: &mut Vec<u8>) {
        let t: u8 = match self {
            OrganizationKind::UnsetType => 0u8,
            OrganizationKind::StandardsBody => 1u8,
            OrganizationKind::CertifyingBody => 2u8,
            OrganizationKind::Factory => 3u8,
        };
        out.push(t);
        assert(final(out)@ =~= old(out)@ + Self::enc(self@));
    }

    fn decode_from(b: &[u8], pos: usize) -> (r: Option<(Self, usize)>) {
        if pos >= b.len() {
            return None;
        }
        let x = match b[pos] {
            0 => OrganizationKind::UnsetType,
            1 => OrganizationKind::StandardsBody,
            2 => OrganizationKind::CertifyingBody,
            3 => OrganizationKind::Factory,
            _ => {
                proof {
                    assert forall|m: OrganizationKind| !#[trigger] encodes_at(b@, pos as int, Self::enc(m)) by {
                        if encodes_at(b@, pos as int, Self::enc(m)) {
                            assert(b@.subrange(pos as int, pos + 1)[0] == b@[pos as int]);
                        }
                    }
                }
                return None;
            },
        };
        proof {
            assert(b@.subrange(pos as int, pos + 1) =~= seq![b@[pos as int]]);
            assert forall|m: OrganizationKind| #[trigger] encodes_at(b@, pos as int, Self::enc(m)) implies m == x by {
                assert(b@.subrange(pos as int, pos + 1)[0] == b@[pos as int]);
            }
        }
        Some((x, pos + 1))
    }
}

impl View for Status {
    type V = Status;

    open spec fn view(&self) -> Status {
        *self
    }
}

impl Codec for Status {
    open spec fn enc(v: Status) -> Seq<u8> {
        seq![match v {
            Status::UnsetStatus => 0u8,
            Status::Open => 1u8,
            Status::InProgress => 2u8,
            Status::Closed => 3u8,
            Status::Certified => 4u8,
        }]
    }

    proof fn lemma_enc_nonempty(v: Status) {
    }

    fn encode_into(&self, out: &mut Vec<u8>) {
        let t: u8 = match self {
            Status::UnsetStatus => 0u8,
            Status::Open => 1u8,
            Status::InProgress => 2u8,
            Status::Closed => 3u8,
            Status::Certified => 4u8,
        };
        out.push(t);
        assert(final(out)@ =~= old(out)@ + Self::enc(self@));
    }

    fn decode_from(b: &[u8], pos: usize) -> (r: Option<(Self, usize)>) {
        if pos >= b.len() {
            return None;
        }
        let x = match b[pos] {
            0 => Status::UnsetStatus,
            1 => Status::Open,
            2 => Status::InProgress,
            3 => Status::Closed,
            4 => Status::Certified,
            _ => {
                proof {
                    assert forall|m: Status| !#[trigger] encodes_at(b@, pos as int, Self::enc(m)) by {
                        if encodes_at(b@, pos as int, Self::enc(m)) {
                            assert(b@.subrange(pos as int, pos + 1)[0] == b@[pos as int]);
                        }
                    }
                }
                return None;
            },
        };
        proof {
            assert(b@.subrange(pos as int, pos + 1) =~= seq![b@[pos as int]]);
            assert forall|m: Status| #[trigger] encodes_at(b@, pos as int, Self::enc(m)) implies m == x by {
                assert(b@.subrange(pos as int, pos + 1)[0] == b@[pos as int]);
            }
        }
        Some((x, pos + 1))
    }
}

impl Codec for Agent {
    open spec fn enc(v: AgentModel) -> Seq<u8> {
        str_enc(v.public_key) + (str_enc(v.name) + (opt_enc(v.organization_id) + u64_enc(v.timestamp)))
    }

    proof fn lemma_enc_nonempty(v: AgentModel) {
        lemma_auto_spec_u64_to_from_le_bytes();
    }

    fn encode_into(&self, out: &mut Vec<u8>) {
        encode_str(&self.public_key, out);
        encode_str(&self.name, out);
        encode_opt_str(&self.organization_id, out);
        encode_u64(self.timestamp, out);
        assert(final(out)@ =~= old(out)@ + Self::enc(self@));
    }

    fn decode_from(b: &[u8], pos: usize) -> (r: Option<(Self, usize)>) {
        proof {
            lemma_auto_spec_u64_to_from_le_bytes();
        }
        let (x0, q0) = match decode_str(b, pos) {
            Some(t) => t,
            None => {
                proof {
                    assert forall|m: AgentModel| !#[trigger] encodes_at(b@, pos as int, Self::enc(m)) by {
                        if encodes_at(b@, pos as int, Self::enc(m)) {
                            lemma_encodes_concat(b@, pos as int, str_enc(m.public_key), str_enc(m.name) + (opt_enc(m.organization_id) + u64_enc(m.timestamp)));
                            assert(encodes_at(b@, pos as int, str_enc(m.public_key)));
                        }
                    }
                }
                return None;
            },
        };
        let (x1, q1) = match decode_str(b, q0) {
            Some(t) => t,
            None => {
                proof {
                    assert forall|m: AgentModel| !#[trigger] encodes_at(b@, pos as int, Self::enc(m)) by {
                        if encodes_at(b@, pos as int, Self::enc(m)) {
                            lemma_encodes_concat(b@, pos as int, str_enc(m.public_key), str_enc(m.name) + (opt_enc(m.organization_id) + u64_enc(m.timestamp)));
                            assert(m.public_key == x0@);
                            lemma_encodes_concat(b@, q0 as int, str_enc(m.name), opt_enc(m.organization_id) + u64_enc(m.timestamp));
                            assert(encodes_at(b@, q0 as int, str_enc(m.name)));
                        }
                    }
                }
                return None;
            },
        };
        let (x2, q2) = match decode_opt_str(b, q1) {
            Some(t) => t,
            None => {
                proof {
                    assert forall|m: AgentModel| !#[trigger] encodes_at(b@, pos as int, Self::enc(m)) by {
                        if encodes_at(b@, pos as int, Self::enc(m)) {
                            lemma_encodes_concat(b@, pos as int, str_enc(m.public_key), str_enc(m.name) + (opt_enc(m.organization_id) + u64_enc(m.timestamp)));
                            assert(m.public_key == x0@);
                            lemma_encodes_concat(b@, q0 as int, str_enc(m.name), opt_enc(m.organization_id) + u64_enc(m.timestamp));
                            assert(m.name == x1@);
                            lemma_encodes_concat(b@, q1 as int, opt_enc(m.organization_id), u64_enc(m.timestamp));
                            assert(encodes_at(b@, q1 as int, opt_enc(m.organization_id)));
                        }
                    }
                }
                return None;
            },
        };
        let (x3, q3) = match decode_u64(b, q2) {
            Some(t) => t,
            None => {
                proof {
                    assert forall|m: AgentModel| !#[trigger] encodes_at(b@, pos as int, Self::enc(m)) by {
                        if encodes_at(b@, pos as int, Self::enc(m)) {
                            lemma_encodes_concat(b@, pos as int, str_enc(m.public_key), str_enc(m.name) + (opt_enc(m.organization_id) + u64_enc(m.timestamp)));
                            assert(m.public_key == x0@);
                            lemma_encodes_concat(b@, q0 as int, str_enc(m.name), opt_enc(m.organization_id) + u64_enc(m.timestamp));
                            assert(m.name == x1@);
                            lemma_encodes_concat(b@, q1 as int, opt_enc(m.organization_id), u64_enc(m.timestamp));
                            assert(m.organization_id == opt_view(x2));
                            assert(encodes_at(b@, q2 as int, u64_enc(m.timestamp)));
                        }
                    }
                }
                return None;
            },
        };
        let x = Agent { public_key: x0, name: x1, organization_id: x2, timestamp: x3 };
        proof {
            lemma_encodes_concat(b@, q1 as int, opt_enc(x@.organization_id), u64_enc(x@.timestamp));
            lemma_encodes_concat(b@, q0 as int, str_enc(x@.name), opt_enc(x@.organization_id) + u64_enc(x@.timestamp));
            lemma_encodes_concat(b@, pos as int, str_enc(x@.public_key), str_enc(x@.name) + (opt_enc(x@.organization_id) + u64_enc(x@.timestamp)));
            assert forall|m: AgentModel| #[trigger] encodes_at(b@, pos as int, Self::enc(m)) implies m == x@ by {
                lemma_encodes_concat(b@, pos as int, str_enc(m.public_key), str_enc(m.name) + (opt_enc(m.organization_id) + u64_enc(m.timestamp)));
                assert(m.public_key == x@.public_key);
                lemma_encodes_concat(b@, q0 as int, str_enc(m.name), opt_enc(m.organization_id) + u64_enc(m.timestamp));
                assert(m.name == x@.name);
                lemma_encodes_concat(b@, q1 as int, opt_enc(m.organization_id), u64_enc(m.timestamp));
                assert(m.organization_id == x@.organization_id);
                assert(m.timestamp == x@.timestamp);
            }
        }
        Some((x, q3))
    }
}

impl Codec for ContactInfo {
    open spec fn enc(v: ContactModel) -> Seq<u8> {
        str_enc(v.name) + (str_enc(v.phone_number) + str_enc(v.language_code))
    }

    proof fn lemma_enc_nonempty(v: ContactModel) {
        lemma_auto_spec_u64_to_from_le_bytes();
    }

    fn encode_into(&self, out: &mut Vec<u8>) {
        encode_str(&self.name, out);
        encode_str(&self.phone_number, out);
        encode_str(&self.language_code, out);
        assert(final(out)@ =~= old(out)@ + Self::enc(self@));
    }

    fn decode_from(b: &[u8], pos: usize) -> (r: Option<(Self, usize)>) {
        proof {
            lemma_auto_spec_u64_to_from_le_bytes();
        }
        let (x0, q0) = match decode_str(b, pos) {
            Some(t) => t,
            None => {
                proof {
                    assert forall|m: ContactModel| !#[trigger] encodes_at(b@, pos as int, Self::enc(m)) by {
                        if encodes_at(b@, pos as int, Self::enc(m)) {
                            lemma_encodes_concat(b@, pos as int, str_enc(m.name), str_enc(m.phone_number) + str_enc(m.language_code));
                            assert(encodes_at(b@, pos as int, str_enc(m.name)));
                        }
                    }
                }
                return None;
            },
        };
        let (x1, q1) = match decode_str(b, q0) {
            Some(t) => t,
            None => {
                proof {
                    assert forall|m: ContactModel| !#[trigger] encodes_at(b@, pos as int, Self::enc(m)) by {
                        if encodes_at(b@, pos as int, Self::enc(m)) {
                            lemma_encodes_concat(b@, pos as int, str_enc(m.name), str_enc(m.phone_number) + str_enc(m.language_code));
                            assert(m.name == x0@);
                            lemma_encodes_concat(b@, q0 as int, str_enc(m.phone_number), str_enc(m.language_code));
                            assert(encodes_at(b@, q0 as int, str_enc(m.phone_number)));
                        }
                    }
                }
                return None;
            },
        };
        let (x2, q2) = match decode_str(b, q1) {
            Some(t) => t,
            None => {
                proof {
                    assert forall|m: ContactModel| !#[trigger] encodes_at(b@, pos as int, Self::enc(m)) by {
                        if encodes_at(b@, pos as int, Self::enc(m)) {
                            lemma_encodes_concat(b@, pos as int, str_enc(m.name), str_enc(m.phone_number) + str_enc(m.language_code));
                            assert(m.name == x0@);
                            lemma_encodes_concat(b@, q0 as int, str_enc(m.phone_number), str_enc(m.language_code));
                            assert(m.phone_number == x1@);
                            assert(encodes_at(b@, q1 as int, str_enc(m.language_code)));
                        }
                    }
                }
                return None;
            },
        };
        let x = ContactInfo { name: x0, phone_number: x1, language_code: x2 };
        proof {
            lemma_encodes_concat(b@, q0 as int, str_enc(x@.phone_number), str_enc(x@.language_code));
            lemma_encodes_concat(b@, pos as int, str_enc(x@.name), str_enc(x@.phone_number) + str_enc(x@.language_code));
            assert forall|m: ContactModel| #[trigger] encodes_at(b@, pos as int, Self::enc(m)) implies m == x@ by {
                lemma_encodes_concat(b@, pos as int, str_enc(m.name), str_enc(m.phone_number) + str_enc(m.language_code));
                assert(m.name == x@.name);
                lemma_encodes_concat(b@, q0 as int, str_enc(m.phone_number), str_enc(m.language_code));
                assert(m.phone_number == x@.phone_number);
                assert(m.language_code == x@.language_code);
            }
        }
        Some((x, q2))
    }
}

impl Codec for AuthorizationEntry {
    open spec fn enc(v: AuthorizationModel) -> Seq<u8> {
        str_enc(v.public_key) + AuthorizationRole::enc(v.role)
    }

    proof fn lemma_enc_nonempty(v: AuthorizationModel) {
        lemma_auto_spec_u64_to_from_le_bytes();
    }

    fn encode_into(&self, out: &mut Vec<u8>) {
        encode_str(&self.public_key, out);
        self.role.encode_into(out);
        assert(final(out)@ =~= old(out)@ + Self::enc(self@));
    }

    fn decode_from(b: &[u8], pos: usize) -> (r: Option<(Self, usize)>) {
        proof {
            lemma_auto_spec_u64_to_from_le_bytes();
        }
        let (x0, q0) = match decode_str(b, pos) {
            Some(t) => t,
            None => {
                proof {
                    assert forall|m: AuthorizationModel| !#[trigger] encodes_at(b@, pos as int, Self::enc(m)) by {
                        if encodes_at(b@, pos as int, Self::enc(m)) {
                            lemma_encodes_concat(b@, pos as int, str_enc(m.public_key), AuthorizationRole::enc(m.role));
                            assert(encodes_at(b@, pos as int, str_enc(m.public_key)));
                        }
                    }
                }
                return None;
            },
        };
        let (x1, q1) = match AuthorizationRole::decode_from(b, q0) {
            Some(t) => t,
            None => {
                proof {
                    assert forall|m: AuthorizationModel| !#[trigger] encodes_at(b@, pos as int, Self::enc(m)) by {
                        if encodes_at(b@, pos as int, Self::enc(m)) {
                            lemma_encodes_concat(b@, pos as int, str_enc(m.public_key), AuthorizationRole::enc(m.role));
                            assert(m.public_key == x0@);
                            assert(encodes_at(b@, q0 as int, AuthorizationRole::enc(m.role)));
                        }
                    }
                }
                return None;
            },
        };
        let x = AuthorizationEntry { public_key: x0, role: x1 };
        proof {
            lemma_encodes_concat(b@, pos as int, str_enc(x@.public_key), AuthorizationRole::enc(x@.role));
            assert forall|m: AuthorizationModel| #[trigger] encodes_at(b@, pos as int, Self::enc(m)) implies m == x@ by {
                lemma_encodes_concat(b@, pos as int, str_enc(m.public_key), AuthorizationRole::enc(m.role));
                assert(m.public_key == x@.public_key);
                assert(m.role == x@.role);
            }
        }
        Some((x, q1))
    }
}

impl Codec for FactoryAddress {
    open spec fn enc(v: AddressModel) -> Seq<u8> {
        str_enc(v.street_line_1) + (str_enc(v.street_line_2) + (str_enc(v.city) + (str_enc(v.state_province) + (str_enc(v.country) + str_enc(v.postal_code)))))
    }

    proof fn lemma_enc_nonempty(v: AddressModel) {
        lemma_auto_spec_u64_to_from_le_bytes();
    }

    fn encode_into(&self, out: &mut Vec<u8>) {
        encode_str(&self.street_line_1, out);
        encode_str(&self.street_line_2, out);
        encode_str(&self.city, out);
        encode_str(&self.state_province, out);
        encode_str(&self.country, out);
        encode_str(&self.postal_code, out);
        assert(final(out)@ =~= old(out)@ + Self::enc(self@));
    }

    fn decode_from(b: &[u8], pos: usize) -> (r: Option<(Self, usize)>) {
        proof {
            lemma_auto_spec_u64_to_from_le_bytes();
        }
        let (x0, q0) = match decode_str(b, pos) {
            Some(t) => t,
            None => {
                proof {
                    assert forall|m: AddressModel| !#[trigger] encodes_at(b@, pos as int, Self::enc(m)) by {
                        if encodes_at(b@, pos as int, Self::enc(m)) {
                            lemma_encodes_concat(b@, pos as int, str_enc(m.street_line_1), str_enc(m.street_line_2) + (str_enc(m.city) + (str_enc(m.state_province) + (str_enc(m.country) + str_enc(m.postal_code)))));
                            assert(encodes_at(b@, pos as int, str_enc(m.street_line_1)));
                        }
                    }
                }
                return None;
            },
        };
        let (x1, q1) = match decode_str(b, q0) {
            Some(t) => t,
            None => {
                proof {
                    assert forall|m: AddressModel| !#[trigger] encodes_at(b@, pos as int, Self::enc(m)) by {
                        if encodes_at(b@, pos as int, Self::enc(m)) {
                            lemma_encodes_concat(b@, pos as int, str_enc(m.street_line_1), str_enc(m.street_line_2) + (str_enc(m.city) + (str_enc(m.state_province) + (str_enc(m.country) + str_enc(m.postal_code)))));
                            assert(m.street_line_1 == x0@);
                            lemma_encodes_concat(b@, q0 as int, str_enc(m.street_line_2), str_enc(m.city) + (str_enc(m.state_province) + (str_enc(m.country) + str_enc(m.postal_code))));
                            assert(encodes_at(b@, q0 as int, str_enc(m.street_line_2)));
                        }
                    }
                }
                return None;
            },
        };
        let (x2, q2) = match decode_str(b, q1) {
            Some(t) => t,
            None => {
                proof {
                    assert forall|m: AddressModel| !#[trigger] encodes_at(b@, pos as int, Self::enc(m)) by {
                        if encodes_at(b@, pos as int, Self::enc(m)) {
                            lemma_encodes_concat(b@, pos as int, str_enc(m.street_line_1), str_enc(m.street_line_2) + (str_enc(m.city) + (str_enc(m.state_province) + (str_enc(m.country) + str_enc(m.postal_code)))));
                            assert(m.street_line_1 == x0@);
                            lemma_encodes_concat(b@, q0 as int, str_enc(m.street_line_2), str_enc(m.city) + (str_enc(m.state_province) + (str_enc(m.country) + str_enc(m.postal_code))));
                            assert(m.street_line_2 == x1@);
                            lemma_encodes_concat(b@, q1 as int, str_enc(m.city), str_enc(m.state_province) + (str_enc(m.country) + str_enc(m.postal_code)));
                            assert(encodes_at(b@, q1 as int, str_enc(m.city)));
                        }
                    }
                }
                return None;
            },
        };
        let (x3, q3) = match decode_str(b, q2) {
            Some(t) => t,
            None => {
                proof {
                    assert forall|m: AddressModel| !#[trigger] encodes_at(b@, pos as int, Self::enc(m)) by {
                        if encodes_at(b@, pos as int, Self::enc(m)) {
                            lemma_encodes_concat(b@, pos as int, str_enc(m.street_line_1), str_enc(m.street_line_2) + (str_enc(m.city) + (str_enc(m.state_province) + (str_enc(m.country) + str_enc(m.postal_code)))));
                            assert(m.street_line_1 == x0@);
                            lemma_encodes_concat(b@, q0 as int, str_enc(m.street_line_2), str_enc(m.city) + (str_enc(m.state_province) + (str_enc(m.country) + str_enc(m.postal_code))));
                            assert(m.street_line_2 == x1@);
                            lemma_encodes_concat(b@, q1 as int, str_enc(m.city), str_enc(m.state_province) + (str_enc(m.country) + str_enc(m.postal_code)));
                            assert(m.city == x2@);
                            lemma_encodes_concat(b@, q2 as int, str_enc(m.state_province), str_enc(m.country) + str_enc(m.postal_code));
                            assert(encodes_at(b@, q2 as int, str_enc(m.state_province)));
                        }
                    }
                }
                return None;
            },
        };
        let (x4, q4) = match decode_str(b, q3) {
            Some(t) => t,
            None => {
                proof {
                    assert forall|m: AddressModel| !#[trigger] encodes_at(b@, pos as int, Self::enc(m)) by {
                        if encodes_at(b@, pos as int, Self::enc(m)) {
                            lemma_encodes_concat(b@, pos as int, str_enc(m.street_line_1), str_enc(m.street_line_2) + (str_enc(m.city) + (str_enc(m.state_province) + (str_enc(m.country) + str_enc(m.postal_code)))));
                            assert(m.street_line_1 == x0@);
                            lemma_encodes_concat(b@, q0 as int, str_enc(m.street_line_2), str_enc(m.city) + (str_enc(m.state_province) + (str_enc(m.country) + str_enc(m.postal_code))));
                            assert(m.street_line_2 == x1@);
                            lemma_encodes_concat(b@, q1 as int, str_enc(m.city), str_enc(m.state_province) + (str_enc(m.country) + str_enc(m.postal_code)));
                            assert(m.city == x2@);
                            lemma_encodes_concat(b@, q2 as int, str_enc(m.state_province), str_enc(m.country) + str_enc(m.postal_code));
                            assert(m.state_province == x3@);
                            lemma_encodes_concat(b@, q3 as int, str_enc(m.country), str_enc(m.postal_code));
                            assert(encodes_at(b@, q3 as int, str_enc(m.country)));
                        }
                    }
                }
                return None;
            },
        };
        let (x5, q5) = match decode_str(b, q4) {
            Some(t) => t,
            None => {
                proof {
                    assert forall|m: AddressModel| !#[trigger] encodes_at(b@, pos as int, Self::enc(m)) by {
                        if encodes_at(b@, pos as int, Self::enc(m)) {
                            lemma_encodes_concat(b@, pos as int, str_enc(m.street_line_1), str_enc(m.street_line_2) + (str_enc(m.city) + (str_enc(m.state_province) + (str_enc(m.country) + str_enc(m.postal_code)))));
                            assert(m.street_line_1 == x0@);
                            lemma_encodes_concat(b@, q0 as int, str_enc(m.street_line_2), str_enc(m.city) + (str_enc(m.state_province) + (str_enc(m.country) + str_enc(m.postal_code))));
                            assert(m.street_line_2 == x1@);
                            lemma_encodes_concat(b@, q1 as int, str_enc(m.city), str_enc(m.state_province) + (str_enc(m.country) + str_enc(m.postal_code)));
                            assert(m.city == x2@);
                            lemma_encodes_concat(b@, q2 as int, str_enc(m.state_province), str_enc(m.country) + str_enc(m.postal_code));
                            assert(m.state_province == x3@);
                            lemma_encodes_concat(b@, q3 as int, str_enc(m.country), str_enc(m.postal_code));
                            assert(m.country == x4@);
                            assert(encodes_at(b@, q4 as int, str_enc(m.postal_code)));
                        }
                    }
                }
                return None;
            },
        };
        let x = FactoryAddress { street_line_1: x0, street_line_2: x1, city: x2, state_province: x3, country: x4, postal_code: x5 };
        proof {
            lemma_encodes_concat(b@, q3 as int, str_enc(x@.country), str_enc(x@.postal_code));
            lemma_encodes_concat(b@, q2 as int, str_enc(x@.state_province), str_enc(x@.country) + str_enc(x@.postal_code));
            lemma_encodes_concat(b@, q1 as int, str_enc(x@.city), str_enc(x@.state_province) + (str_enc(x@.country) + str_enc(x@.postal_code)));
            lemma_encodes_concat(b@, q0 as int, str_enc(x@.street_line_2), str_enc(x@.city) + (str_enc(x@.state_province) + (str_enc(x@.country) + str_enc(x@.postal_code))));
            lemma_encodes_concat(b@, pos as int, str_enc(x@.street_line_1), str_enc(x@.street_line_2) + (str_enc(x@.city) + (str_enc(x@.state_province) + (str_enc(x@.country) + str_enc(x@.postal_code)))));
            assert forall|m: AddressModel| #[trigger] encodes_at(b@, pos as int, Self::enc(m)) implies m == x@ by {
                lemma_encodes_concat(b@, pos as int, str_enc(m.street_line_1), str_enc(m.street_line_2) + (str_enc(m.city) + (str_enc(m.state_province) + (str_enc(m.country) + str_enc(m.postal_code)))));
                assert(m.street_line_1 == x@.street_line_1);
                lemma_encodes_concat(b@, q0 as int, str_enc(m.street_line_2), str_enc(m.city) + (str_enc(m.state_province) + (str_enc(m.country) + str_enc(m.postal_code))));
                assert(m.street_line_2 == x@.street_line_2);
                lemma_encodes_concat(b@, q1 as int, str_enc(m.city), str_enc(m.state_province) + (str_enc(m.country) + str_enc(m.postal_code)));
                assert(m.city == x@.city);
                lemma_encodes_concat(b@, q2 as int, str_enc(m.state_province), str_enc(m.country) + str_enc(m.postal_code));
                assert(m.state_province == x@.state_province);
                lemma_encodes_concat(b@, q3 as int, str_enc(m.country), str_enc(m.postal_code));
                assert(m.country == x@.country);
                assert(m.postal_code == x@.postal_code);
            }
        }
        Some((x, q5))
    }
}

impl Codec for AccreditationEntry {
    open spec fn enc(v: AccreditationModel) -> Seq<u8> {
        str_enc(v.standard_id) + (str_enc(v.standard_version) + (str_enc(v.accreditor_id) + (u64_enc(v.valid_from) + u64_enc(v.valid_to))))
    }

    proof fn lemma_enc_nonempty(v: AccreditationModel) {
        lemma_auto_spec_u64_to_from_le_bytes();
    }

    fn encode_into(&self, out: &mut Vec<u8>) {
        encode_str(&self.standard_id, out);
        encode_str(&self.standard_version, out);
        encode_str(&self.accreditor_id, out);
        encode_u64(self.valid_from, out);
        encode_u64(self.valid_to, out);
        assert(final(out)@ =~= old(out)@ + Self::enc(self@));
    }

    fn decode_from(b: &[u8], pos: usize) -> (r: Option<(Self, usize)>) {
        proof {
            lemma_auto_spec_u64_to_from_le_bytes();
        }
        let (x0, q0) = match decode_str(b, pos) {
            Some(t) => t,
            None => {
                proof {
                    assert forall|m: AccreditationModel| !#[trigger] encodes_at(b@, pos as int, Self::enc(m)) by {
                        if encodes_at(b@, pos as int, Self::enc(m)) {
                            lemma_encodes_concat(b@, pos as int, str_enc(m.standard_id), str_enc(m.standard_version) + (str_enc(m.accreditor_id) + (u64_enc(m.valid_from) + u64_enc(m.valid_to))));
                            assert(encodes_at(b@, pos as int, str_enc(m.standard_id)));
                        }
                    }
                }
                return None;
            },
        };
        let (x1, q1) = match decode_str(b, q0) {
            Some(t) => t,
            None => {
                proof {
                    assert forall|m: AccreditationModel| !#[trigger] encodes_at(b@, pos as int, Self::enc(m)) by {
                        if encodes_at(b@, pos as int, Self::enc(m)) {
                            lemma_encodes_concat(b@, pos as int, str_enc(m.standard_id), str_enc(m.standard_version) + (str_enc(m.accreditor_id) + (u64_enc(m.valid_from) + u64_enc(m.valid_to))));
                            assert(m.standard_id == x0@);
                            lemma_encodes_concat(b@, q0 as int, str_enc(m.standard_version), str_enc(m.accreditor_id) + (u64_enc(m.valid_from) + u64_enc(m.valid_to)));
                            assert(encodes_at(b@, q0 as int, str_enc(m.standard_version)));
                        }
                    }
                }
                return None;
            },
        };
        let (x2, q2) = match decode_str(b, q1) {
            Some(t) => t,
            None => {
                proof {
                    assert forall|m: AccreditationModel| !#[trigger] encodes_at(b@, pos as int, Self::enc(m)) by {
                        if encodes_at(b@, pos as int, Self::enc(m)) {
                            lemma_encodes_concat(b@, pos as int, str_enc(m.standard_id), str_enc(m.standard_version) + (str_enc(m.accreditor_id) + (u64_enc(m.valid_from) + u64_enc(m.valid_to))));
                            assert(m.standard_id == x0@);
                            lemma_encodes_concat(b@, q0 as int, str_enc(m.standard_version), str_enc(m.accreditor_id) + (u64_enc(m.valid_from) + u64_enc(m.valid_to)));
                            assert(m.standard_version == x1@);
                            lemma_encodes_concat(b@, q1 as int, str_enc(m.accreditor_id), u64_enc(m.valid_from) + u64_enc(m.valid_to));
                            assert(encodes_at(b@, q1 as int, str_enc(m.accreditor_id)));
                        }
                    }
                }
                return None;
            },
        };
        let (x3, q3) = match decode_u64(b, q2) {
            Some(t) => t,
            None => {
                proof {
                    assert forall|m: AccreditationModel| !#[trigger] encodes_at(b@, pos as int, Self::enc(m)) by {
                        if encodes_at(b@, pos as int, Self::enc(m)) {
                            lemma_encodes_concat(b@, pos as int, str_enc(m.standard_id), str_enc(m.standard_version) + (str_enc(m.accreditor_id) + (u64_enc(m.valid_from) + u64_enc(m.valid_to))));
                            assert(m.standard_id == x0@);
                            lemma_encodes_concat(b@, q0 as int, str_enc(m.standard_version), str_enc(m.accreditor_id) + (u64_enc(m.valid_from) + u64_enc(m.valid_to)));
                            assert(m.standard_version == x1@);
                            lemma_encodes_concat(b@, q1 as int, str_enc(m.accreditor_id), u64_enc(m.valid_from) + u64_enc(m.valid_to));
                            assert(m.accreditor_id == x2@);
                            lemma_encodes_concat(b@, q2 as int, u64_enc(m.valid_from), u64_enc(m.valid_to));
                            assert(encodes_at(b@, q2 as int, u64_enc(m.valid_from)));
                        }
                    }
                }
                return None;
            },
        };
        let (x4, q4) = match decode_u64(b, q3) {
            Some(t) => t,
            None => {
                proof {
                    assert forall|m: AccreditationModel| !#[trigger] encodes_at(b@, pos as int, Self::enc(m)) by {
                        if encodes_at(b@, pos as int, Self::enc(m)) {
                            lemma_encodes_concat(b@, pos as int, str_enc(m.standard_id), str_enc(m.standard_version) + (str_enc(m.accreditor_id) + (u64_enc(m.valid_from) + u64_enc(m.valid_to))));
                            assert(m.standard_id == x0@);
                            lemma_encodes_concat(b@, q0 as int, str_enc(m.standard_version), str_enc(m.accreditor_id) + (u64_enc(m.valid_from) + u64_enc(m.valid_to)));
                            assert(m.standard_version == x1@);
                            lemma_encodes_concat(b@, q1 as int, str_enc(m.accreditor_id), u64_enc(m.valid_from) + u64_enc(m.valid_to));
                            assert(m.accreditor_id == x2@);
                            lemma_encodes_concat(b@, q2 as int, u64_enc(m.valid_from), u64_enc(m.valid_to));
                            assert(m.valid_from == x3);
                            assert(encodes_at(b@, q3 as int, u64_enc(m.valid_to)));
                        }
                    }
                }
                return None;
            },
        };
        let x = AccreditationEntry { standard_id: x0, standard_version: x1, accreditor_id: x2, valid_from: x3, valid_to: x4 };
        proof {
            lemma_encodes_concat(b@, q2 as int, u64_enc(x@.valid_from), u64_enc(x@.valid_to));
            lemma_encodes_concat(b@, q1 as int, str_enc(x@.accreditor_id), u64_enc(x@.valid_from) + u64_enc(x@.valid_to));
            lemma_encodes_concat(b@, q0 as int, str_enc(x@.standard_version), str_enc(x@.accreditor_id) + (u64_enc(x@.valid_from) + u64_enc(x@.valid_to)));
            lemma_encodes_concat(b@, pos as int, str_enc(x@.standard_id), str_enc(x@.standard_version) + (str_enc(x@.accreditor_id) + (u64_enc(x@.valid_from) + u64_enc(x@.valid_to))));
            assert forall|m: AccreditationModel| #[trigger] encodes_at(b@, pos as int, Self::enc(m)) implies m == x@ by {
                lemma_encodes_concat(b@, pos as int, str_enc(m.standard_id), str_enc(m.standard_version) + (str_enc(m.accreditor_id) + (u64_enc(m.valid_from) + u64_enc(m.valid_to))));
                assert(m.standard_id == x@.standard_id);
                lemma_encodes_concat(b@, q0 as int, str_enc(m.standard_version), str_enc(m.accreditor_id) + (u64_enc(m.valid_from) + u64_enc(m.valid_to)));
                assert(m.standard_version == x@.standard_version);
                lemma_encodes_concat(b@, q1 as int, str_enc(m.accreditor_id), u64_enc(m.valid_from) + u64_enc(m.valid_to));
                assert(m.accreditor_id == x@.accreditor_id);
                lemma_encodes_concat(b@, q2 as int, u64_enc(m.valid_from), u64_enc(m.valid_to));
                assert(m.valid_from == x@.valid_from);
                assert(m.valid_to == x@.valid_to);
            }
        }
        Some((x, q4))
    }
}

impl Codec for VersionEntry {
    open spec fn enc(v: VersionModel) -> Seq<u8> {
        str_enc(v.version) + (str_enc(v.description) + (str_enc(v.link) + u64_enc(v.approval_date)))
    }

    proof fn lemma_enc_nonempty(v: VersionModel) {
        lemma_auto_spec_u64_to_from_le_bytes();
    }

    fn encode_into(&self, out: &mut Vec<u8>) {
        encode_str(&self.version, out);
        encode_str(&self.description, out);
        encode_str(&self.link, out);
        encode_u64(self.approval_date, out);
        assert(final(out)@ =~= old(out)@ + Self::enc(self@));
    }

    fn decode_from(b: &[u8], pos: usize) -> (r: Option<(Self, usize)>) {
        proof {
            lemma_auto_spec_u64_to_from_le_bytes();
        }
        let (x0, q0) = match decode_str(b, pos) {
            Some(t) => t,
            None => {
                proof {
                    assert forall|m: VersionModel| !#[trigger] encodes_at(b@, pos as int, Self::enc(m)) by {
                        if encodes_at(b@, pos as int, Self::enc(m)) {
                            lemma_encodes_concat(b@, pos as int, str_enc(m.version), str_enc(m.description) + (str_enc(m.link) + u64_enc(m.approval_date)));
                            assert(encodes_at(b@, pos as int, str_enc(m.version)));
                        }
                    }
                }
                return None;
            },
        };
        let (x1, q1) = match decode_str(b, q0) {
            Some(t) => t,
            None => {
                proof {
                    assert forall|m: VersionModel| !#[trigger] encodes_at(b@, pos as int, Self::enc(m)) by {
                        if encodes_at(b@, pos as int, Self::enc(m)) {
                            lemma_encodes_concat(b@, pos as int, str_enc(m.version), str_enc(m.description) + (str_enc(m.link) + u64_enc(m.approval_date)));
                            assert(m.version == x0@);
                            lemma_encodes_concat(b@, q0 as int, str_enc(m.description), str_enc(m.link) + u64_enc(m.approval_date));
                            assert(encodes_at(b@, q0 as int, str_enc(m.description)));
                        }
                    }
                }
                return None;
            },
        };
        let (x2, q2) = match decode_str(b, q1) {
            Some(t) => t,
            None => {
                proof {
                    assert forall|m: VersionModel| !#[trigger] encodes_at(b@, pos as int, Self::enc(m)) by {
                        if encodes_at(b@, pos as int, Self::enc(m)) {
                            lemma_encodes_concat(b@, pos as int, str_enc(m.version), str_enc(m.description) + (str_enc(m.link) + u64_enc(m.approval_date)));
                            assert(m.version == x0@);
                            lemma_encodes_concat(b@, q0 as int, str_enc(m.description), str_enc(m.link) + u64_enc(m.approval_date));
                            assert(m.description == x1@);
                            lemma_encodes_concat(b@, q1 as int, str_enc(m.link), u64_enc(m.approval_date));
                            assert(encodes_at(b@, q1 as int, str_enc(m.link)));
                        }
                    }
                }
                return None;
            },
        };
        let (x3, q3) = match decode_u64(b, q2) {
            Some(t) => t,
            None => {
                proof {
                    assert forall|m: VersionModel| !#[trigger] encodes_at(b@, pos as int, Self::enc(m)) by {
                        if encodes_at(b@, pos as int, Self::enc(m)) {
                            lemma_encodes_concat(b@, pos as int, str_enc(m.version), str_enc(m.description) + (str_enc(m.link) + u64_enc(m.approval_date)));
                            assert(m.version == x0@);
                            lemma_encodes_concat(b@, q0 as int, str_enc(m.description), str_enc(m.link) + u64_enc(m.approval_date));
                            assert(m.description == x1@);
                            lemma_encodes_concat(b@, q1 as int, str_enc(m.link), u64_enc(m.approval_date));
                            assert(m.link == x2@);
                            assert(encodes_at(b@, q2 as int, u64_enc(m.approval_date)));
                        }
                    }
                }
                return None;
            },
        };
        let x = VersionEntry { version: x0, description: x1, link: x2, approval_date: x3 };
        proof {
            lemma_encodes_concat(b@, q1 as int, str_enc(x@.link), u64_enc(x@.approval_date));
            lemma_encodes_concat(b@, q0 as int, str_enc(x@.description), str_enc(x@.link) + u64_enc(x@.approval_date));
            lemma_encodes_concat(b@, pos as int, str_enc(x@.version), str_enc(x@.description) + (str_enc(x@.link) + u64_enc(x@.approval_date)));
            assert forall|m: VersionModel| #[trigger] encodes_at(b@, pos as int, Self::enc(m)) implies m == x@ by {
                lemma_encodes_concat(b@, pos as int, str_enc(m.version), str_enc(m.description) + (str_enc(m.link) + u64_enc(m.approval_date)));
                assert(m.version == x@.version);
                lemma_encodes_concat(b@, q0 as int, str_enc(m.description), str_enc(m.link) + u64_enc(m.approval_date));
                assert(m.description == x@.description);
                lemma_encodes_concat(b@, q1 as int, str_enc(m.link), u64_enc(m.approval_date));
                assert(m.link == x@.link);
                assert(m.approval_date == x@.approval_date);
            }
        }
        Some((x, q3))
    }
}

impl Codec for CertificateDatum {
    open spec fn enc(v: DatumModel) -> Seq<u8> {
        str_enc(v.field) + str_enc(v.data)
    }

    proof fn lemma_enc_nonempty(v: DatumModel) {
        lemma_auto_spec_u64_to_from_le_bytes();
    }

    fn encode_into(&self, out: &mut Vec<u8>) {
        encode_str(&self.field, out);
        encode_str(&self.data, out);
        assert(final(out)@ =~= old(out)@ + Self::enc(self@));
    }

    fn decode_from(b: &[u8], pos: usize) -> (r: Option<(Self, usize)>) {
        proof {
            lemma_auto_spec_u64_to_from_le_bytes();
        }
        let (x0, q0) = match decode_str(b, pos) {
            Some(t) => t,
            None => {
                proof {
                    assert forall|m: DatumModel| !#[trigger] encodes_at(b@, pos as int, Self::enc(m)) by {
                        if encodes_at(b@, pos as int, Self::enc(m)) {
                            lemma_encodes_concat(b@, pos as int, str_enc(m.field), str_enc(m.data));
                            assert(encodes_at(b@, pos as int, str_enc(m.field)));
                        }
                    }
                }
                return None;
            },
        };
        let (x1, q1) = match decode_str(b, q0) {
            Some(t) => t,
            None => {
                proof {
                    assert forall|m: DatumModel| !#[trigger] encodes_at(b@, pos as int, Self::enc(m)) by {
                        if encodes_at(b@, pos as int, Self::enc(m)) {
                            lemma_encodes_concat(b@, pos as int, str_enc(m.field), str_enc(m.data));
                            assert(m.field == x0@);
                            assert(encodes_at(b@, q0 as int, str_enc(m.data)));
                        }
                    }
                }
                return None;
            },
        };
        let x = CertificateDatum { field: x0, data: x1 };
        proof {
            lemma_encodes_concat(b@, pos as int, str_enc(x@.field), str_enc(x@.data));
            assert forall|m: DatumModel| #[trigger] encodes_at(b@, pos as int, Self::enc(m)) implies m == x@ by {
                lemma_encodes_concat(b@, pos as int, str_enc(m.field), str_enc(m.data));
                assert(m.field == x@.field);
                assert(m.data == x@.data);
            }
        }
        Some((x, q1))
    }
}

impl Codec for OrganizationRecord {
    open spec fn enc(v: OrganizationModel) -> Seq<u8> {
        str_enc(v.id) + (str_enc(v.name) + (OrganizationKind::enc(v.kind) + (list_enc::<ContactInfo>(v.contacts) + (list_enc::<AuthorizationEntry>(v.authorizations) + OrganizationDetails::enc(v.details)))))
    }

    proof fn lemma_enc_nonempty(v: OrganizationModel) {
        lemma_auto_spec_u64_to_from_le_bytes();
    }

    fn encode_into(&self, out: &mut Vec<u8>) {
        assert(contacts_view(self.contacts@) =~= views(self.contacts@));
        assert(authorizations_view(self.authorizations@) =~= views(self.authorizations@));
        encode_str(&self.id, out);
        encode_str(&self.name, out);
        self.kind.encode_into(out);
        encode_list(&self.contacts, out);
        encode_list(&self.authorizations, out);
        self.details.encode_into(out);
        assert(final(out)@ =~= old(out)@ + Self::enc(self@));
    }

    fn decode_from(b: &[u8], pos: usize) -> (r: Option<(Self, usize)>) {
        proof {
            lemma_auto_spec_u64_to_from_le_bytes();
        }
        let (x0, q0) = match decode_str(b, pos) {
            Some(t) => t,
            None => {
                proof {
                    assert forall|m: OrganizationModel| !#[trigger] encodes_at(b@, pos as int, Self::enc(m)) by {
                        if encodes_at(b@, pos as int, Self::enc(m)) {
                            lemma_encodes_concat(b@, pos as int, str_enc(m.id), str_enc(m.name) + (OrganizationKind::enc(m.kind) + (list_enc::<ContactInfo>(m.contacts) + (list_enc::<AuthorizationEntry>(m.authorizations) + OrganizationDetails::enc(m.details)))));
                            assert(encodes_at(b@, pos as int, str_enc(m.id)));
                        }
                    }
                }
                return None;
            },
        };
        let (x1, q1) = match decode_str(b, q0) {
            Some(t) => t,
            None => {
                proof {
                    assert forall|m: OrganizationModel| !#[trigger] encodes_at(b@, pos as int, Self::enc(m)) by {
                        if encodes_at(b@, pos as int, Self::enc(m)) {
                            lemma_encodes_concat(b@, pos as int, str_enc(m.id), str_enc(m.name) + (OrganizationKind::enc(m.kind) + (list_enc::<ContactInfo>(m.contacts) + (list_enc::<AuthorizationEntry>(m.authorizations) + OrganizationDetails::enc(m.details)))));
                            assert(m.id == x0@);
                            lemma_encodes_concat(b@, q0 as int, str_enc(m.name), OrganizationKind::enc(m.kind) + (list_enc::<ContactInfo>(m.contacts) + (list_enc::<AuthorizationEntry>(m.authorizations) + OrganizationDetails::enc(m.details))));
                            assert(encodes_at(b@, q0 as int, str_enc(m.name)));
                        }
                    }
                }
                return None;
            },
        };
        let (x2, q2) = match OrganizationKind::decode_from(b, q1) {
            Some(t) => t,
            None => {
                proof {
                    assert forall|m: OrganizationModel| !#[trigger] encodes_at(b@, pos as int, Self::enc(m)) by {
                        if encodes_at(b@, pos as int, Self::enc(m)) {
                            lemma_encodes_concat(b@, pos as int, str_enc(m.id), str_enc(m.name) + (OrganizationKind::enc(m.kind) + (list_enc::<ContactInfo>(m.contacts) + (list_enc::<AuthorizationEntry>(m.authorizations) + OrganizationDetails::enc(m.details)))));
                            assert(m.id == x0@);
                            lemma_encodes_concat(b@, q0 as int, str_enc(m.name), OrganizationKind::enc(m.kind) + (list_enc::<ContactInfo>(m.contacts) + (list_enc::<AuthorizationEntry>(m.authorizations) + OrganizationDetails::enc(m.details))));
                            assert(m.name == x1@);
                            lemma_encodes_concat(b@, q1 as int, OrganizationKind::enc(m.kind), list_enc::<ContactInfo>(m.contacts) + (list_enc::<AuthorizationEntry>(m.authorizations) + OrganizationDetails::enc(m.details)));
                            assert(encodes_at(b@, q1 as int, OrganizationKind::enc(m.kind)));
                        }
                    }
                }
                return None;
            },
        };
        let (x3, q3) = match decode_list::<ContactInfo>(b, q2) {
            Some(t) => t,
            None => {
                proof {
                    assert forall|m: OrganizationModel| !#[trigger] encodes_at(b@, pos as int, Self::enc(m)) by {
                        if encodes_at(b@, pos as int, Self::enc(m)) {
                            lemma_encodes_concat(b@, pos as int, str_enc(m.id), str_enc(m.name) + (OrganizationKind::enc(m.kind) + (list_enc::<ContactInfo>(m.contacts) + (list_enc::<AuthorizationEntry>(m.authorizations) + OrganizationDetails::enc(m.details)))));
                            assert(m.id == x0@);
                            lemma_encodes_concat(b@, q0 as int, str_enc(m.name), OrganizationKind::enc(m.kind) + (list_enc::<ContactInfo>(m.contacts) + (list_enc::<AuthorizationEntry>(m.authorizations) + OrganizationDetails::enc(m.details))));
                            assert(m.name == x1@);
                            lemma_encodes_concat(b@, q1 as int, OrganizationKind::enc(m.kind), list_enc::<ContactInfo>(m.contacts) + (list_enc::<AuthorizationEntry>(m.authorizations) + OrganizationDetails::enc(m.details)));
                            assert(m.kind == x2@);
                            lemma_encodes_concat(b@, q2 as int, list_enc::<ContactInfo>(m.contacts), list_enc::<AuthorizationEntry>(m.authorizations) + OrganizationDetails::enc(m.details));
                            assert(encodes_at(b@, q2 as int, list_enc::<ContactInfo>(m.contacts)));
                        }
                    }
                }
                return None;
            },
        };
        let (x4, q4) = match decode_list::<AuthorizationEntry>(b, q3) {
            Some(t) => t,
            None => {
                proof {
                    assert forall|m: OrganizationModel| !#[trigger] encodes_at(b@, pos as int, Self::enc(m)) by {
                        if encodes_at(b@, pos as int, Self::enc(m)) {
                            lemma_encodes_concat(b@, pos as int, str_enc(m.id), str_enc(m.name) + (OrganizationKind::enc(m.kind) + (list_enc::<ContactInfo>(m.contacts) + (list_enc::<AuthorizationEntry>(m.authorizations) + OrganizationDetails::enc(m.details)))));
                            assert(m.id == x0@);
                            lemma_encodes_concat(b@, q0 as int, str_enc(m.name), OrganizationKind::enc(m.kind) + (list_enc::<ContactInfo>(m.contacts) + (list_enc::<AuthorizationEntry>(m.authorizations) + OrganizationDetails::enc(m.details))));
                            assert(m.name == x1@);
                            lemma_encodes_concat(b@, q1 as int, OrganizationKind::enc(m.kind), list_enc::<ContactInfo>(m.contacts) + (list_enc::<AuthorizationEntry>(m.authorizations) + OrganizationDetails::enc(m.details)));
                            assert(m.kind == x2@);
                            lemma_encodes_concat(b@, q2 as int, list_enc::<ContactInfo>(m.contacts), list_enc::<AuthorizationEntry>(m.authorizations) + OrganizationDetails::enc(m.details));
                            assert(m.contacts == views(x3@));
                            lemma_encodes_concat(b@, q3 as int, list_enc::<AuthorizationEntry>(m.authorizations), OrganizationDetails::enc(m.details));
                            assert(encodes_at(b@, q3 as int, list_enc::<AuthorizationEntry>(m.authorizations)));
                        }
                    }
                }
                return None;
            },
        };
        let (x5, q5) = match OrganizationDetails::decode_from(b, q4) {
            Some(t) => t,
            None => {
                proof {
                    assert forall|m: OrganizationModel| !#[trigger] encodes_at(b@, pos as int, Self::enc(m)) by {
                        if encodes_at(b@, pos as int, Self::enc(m)) {
                            lemma_encodes_concat(b@, pos as int, str_enc(m.id), str_enc(m.name) + (OrganizationKind::enc(m.kind) + (list_enc::<ContactInfo>(m.contacts) + (list_enc::<AuthorizationEntry>(m.authorizations) + OrganizationDetails::enc(m.details)))));
                            assert(m.id == x0@);
                            lemma_encodes_concat(b@, q0 as int, str_enc(m.name), OrganizationKind::enc(m.kind) + (list_enc::<ContactInfo>(m.contacts) + (list_enc::<AuthorizationEntry>(m.authorizations) + OrganizationDetails::enc(m.details))));
                            assert(m.name == x1@);
                            lemma_encodes_concat(b@, q1 as int, OrganizationKind::enc(m.kind), list_enc::<ContactInfo>(m.contacts) + (list_enc::<AuthorizationEntry>(m.authorizations) + OrganizationDetails::enc(m.details)));
                            assert(m.kind == x2@);
                            lemma_encodes_concat(b@, q2 as int, list_enc::<ContactInfo>(m.contacts), list_enc::<AuthorizationEntry>(m.authorizations) + OrganizationDetails::enc(m.details));
                            assert(m.contacts == views(x3@));
                            lemma_encodes_concat(b@, q3 as int, list_enc::<AuthorizationEntry>(m.authorizations), OrganizationDetails::enc(m.details));
                            assert(m.authorizations == views(x4@));
                            assert(encodes_at(b@, q4 as int, OrganizationDetails::enc(m.details)));
                        }
                    }
                }
                return None;
            },
        };
        let x = OrganizationRecord { id: x0, name: x1, kind: x2, contacts: x3, authorizations: x4, details: x5 };
        proof {
            assert(contacts_view(x.contacts@) =~= views(x.contacts@));
            assert(authorizations_view(x.authorizations@) =~= views(x.authorizations@));
            lemma_encodes_concat(b@, q3 as int, list_enc::<AuthorizationEntry>(x@.authorizations), OrganizationDetails::enc(x@.details));
            lemma_encodes_concat(b@, q2 as int, list_enc::<ContactInfo>(x@.contacts), list_enc::<AuthorizationEntry>(x@.authorizations) + OrganizationDetails::enc(x@.details));
            lemma_encodes_concat(b@, q1 as int, OrganizationKind::enc(x@.kind), list_enc::<ContactInfo>(x@.contacts) + (list_enc::<AuthorizationEntry>(x@.authorizations) + OrganizationDetails::enc(x@.details)));
            lemma_encodes_concat(b@, q0 as int, str_enc(x@.name), OrganizationKind::enc(x@.kind) + (list_enc::<ContactInfo>(x@.contacts) + (list_enc::<AuthorizationEntry>(x@.authorizations) + OrganizationDetails::enc(x@.details))));
            lemma_encodes_concat(b@, pos as int, str_enc(x@.id), str_enc(x@.name) + (OrganizationKind::enc(x@.kind) + (list_enc::<ContactInfo>(x@.contacts) + (list_enc::<AuthorizationEntry>(x@.authorizations) + OrganizationDetails::enc(x@.details)))));
            assert forall|m: OrganizationModel| #[trigger] encodes_at(b@, pos as int, Self::enc(m)) implies m == x@ by {
                lemma_encodes_concat(b@, pos as int, str_enc(m.id), str_enc(m.name) + (OrganizationKind::enc(m.kind) + (list_enc::<ContactInfo>(m.contacts) + (list_enc::<AuthorizationEntry>(m.authorizations) + OrganizationDetails::enc(m.details)))));
                assert(m.id == x@.id);
                lemma_encodes_concat(b@, q0 as int, str_enc(m.name), OrganizationKind::enc(m.kind) + (list_enc::<ContactInfo>(m.contacts) + (list_enc::<AuthorizationEntry>(m.authorizations) + OrganizationDetails::enc(m.details))));
                assert(m.name == x@.name);
                lemma_encodes_concat(b@, q1 as int, OrganizationKind::enc(m.kind), list_enc::<ContactInfo>(m.contacts) + (list_enc::<AuthorizationEntry>(m.authorizations) + OrganizationDetails::enc(m.details)));
                assert(m.kind == x@.kind);
                lemma_encodes_concat(b@, q2 as int, list_enc::<ContactInfo>(m.contacts), list_enc::<AuthorizationEntry>(m.authorizations) + OrganizationDetails::enc(m.details));
                assert(m.contacts == x@.contacts);
                lemma_encodes_concat(b@, q3 as int, list_enc::<AuthorizationEntry>(m.authorizations), OrganizationDetails::enc(m.details));
                assert(m.authorizations == x@.authorizations);
                assert(m.details == x@.details);
            }
        }
        Some((x, q5))
    }
}

impl Codec for StandardRecord {
    open spec fn enc(v: StandardModel) -> Seq<u8> {
        str_enc(v.id) + (str_enc(v.name) + (str_enc(v.organization_id) + list_enc::<VersionEntry>(v.versions)))
    }

    proof fn lemma_enc_nonempty(v: StandardModel) {
        lemma_auto_spec_u64_to_from_le_bytes();
    }

    fn encode_into(&self, out: &mut Vec<u8>) {
        assert(versions_view(self.versions@) =~= views(self.versions@));
        encode_str(&self.id, out);
        encode_str(&self.name, out);
        encode_str(&self.organization_id, out);
        encode_list(&self.versions, out);
        assert(final(out)@ =~= old(out)@ + Self::enc(self@));
    }

    fn decode_from(b: &[u8], pos: usize) -> (r: Option<(Self, usize)>) {
        proof {
            lemma_auto_spec_u64_to_from_le_bytes();
        }
        let (x0, q0) = match decode_str(b, pos) {
            Some(t) => t,
            None => {
                proof {
                    assert forall|m: StandardModel| !#[trigger] encodes_at(b@, pos as int, Self::enc(m)) by {
                        if encodes_at(b@, pos as int, Self::enc(m)) {
                            lemma_encodes_concat(b@, pos as int, str_enc(m.id), str_enc(m.name) + (str_enc(m.organization_id) + list_enc::<VersionEntry>(m.versions)));
                            assert(encodes_at(b@, pos as int, str_enc(m.id)));
                        }
                    }
                }
                return None;
            },
        };
        let (x1, q1) = match decode_str(b, q0) {
            Some(t) => t,
            None => {
                proof {
                    assert forall|m: StandardModel| !#[trigger] encodes_at(b@, pos as int, Self::enc(m)) by {
                        if encodes_at(b@, pos as int, Self::enc(m)) {
                            lemma_encodes_concat(b@, pos as int, str_enc(m.id), str_enc(m.name) + (str_enc(m.organization_id) + list_enc::<VersionEntry>(m.versions)));
                            assert(m.id == x0@);
                            lemma_encodes_concat(b@, q0 as int, str_enc(m.name), str_enc(m.organization_id) + list_enc::<VersionEntry>(m.versions));
                            assert(encodes_at(b@, q0 as int, str_enc(m.name)));
                        }
                    }
                }
                return None;
            },
        };
        let (x2, q2) = match decode_str(b, q1) {
            Some(t) => t,
            None => {
                proof {
                    assert forall|m: StandardModel| !#[trigger] encodes_at(b@, pos as int, Self::enc(m)) by {
                        if encodes_at(b@, pos as int, Self::enc(m)) {
                            lemma_encodes_concat(b@, pos as int, str_enc(m.id), str_enc(m.name) + (str_enc(m.organization_id) + list_enc::<VersionEntry>(m.versions)));
                            assert(m.id == x0@);
                            lemma_encodes_concat(b@, q0 as int, str_enc(m.name), str_enc(m.organization_id) + list_enc::<VersionEntry>(m.versions));
                            assert(m.name == x1@);
                            lemma_encodes_concat(b@, q1 as int, str_enc(m.organization_id), list_enc::<VersionEntry>(m.versions));
                            assert(encodes_at(b@, q1 as int, str_enc(m.organization_id)));
                        }
                    }
                }
                return None;
            },
        };
        let (x3, q3) = match decode_list::<VersionEntry>(b, q2) {
            Some(t) => t,
            None => {
                proof {
                    assert forall|m: StandardModel| !#[trigger] encodes_at(b@, pos as int, Self::enc(m)) by {
                        if encodes_at(b@, pos as int, Self::enc(m)) {
                            lemma_encodes_concat(b@, pos as int, str_enc(m.id), str_enc(m.name) + (str_enc(m.organization_id) + list_enc::<VersionEntry>(m.versions)));
                            assert(m.id == x0@);
                            lemma_encodes_concat(b@, q0 as int, str_enc(m.name), str_enc(m.organization_id) + list_enc::<VersionEntry>(m.versions));
                            assert(m.name == x1@);
                            lemma_encodes_concat(b@, q1 as int, str_enc(m.organization_id), list_enc::<VersionEntry>(m.versions));
                            assert(m.organization_id == x2@);
                            assert(encodes_at(b@, q2 as int, list_enc::<VersionEntry>(m.versions)));
                        }
                    }
                }
                return None;
            },
        };
        let x = StandardRecord { id: x0, name: x1, organization_id: x2, versions: x3 };
        proof {
            assert(versions_view(x.versions@) =~= views(x.versions@));
            lemma_encodes_concat(b@, q1 as int, str_enc(x@.organization_id), list_enc::<VersionEntry>(x@.versions));
            lemma_encodes_concat(b@, q0 as int, str_enc(x@.name), str_enc(x@.organization_id) + list_enc::<VersionEntry>(x@.versions));
            lemma_encodes_concat(b@, pos as int, str_enc(x@.id), str_enc(x@.name) + (str_enc(x@.organization_id) + list_enc::<VersionEntry>(x@.versions)));
            assert forall|m: StandardModel| #[trigger] encodes_at(b@, pos as int, Self::enc(m)) implies m == x@ by {
                lemma_encodes_concat(b@, pos as int, str_enc(m.id), str_enc(m.name) + (str_enc(m.organization_id) + list_enc::<VersionEntry>(m.versions)));
                assert(m.id == x@.id);
                lemma_encodes_concat(b@, q0 as int, str_enc(m.name), str_enc(m.organization_id) + list_enc::<VersionEntry>(m.versions));
                assert(m.name == x@.name);
                lemma_encodes_concat(b@, q1 as int, str_enc(m.organization_id), list_enc::<VersionEntry>(m.versions));
                assert(m.organization_id == x@.organization_id);
                assert(m.versions == x@.versions);
            }
        }
        Some((x, q3))
    }
}

impl Codec for RequestRecord {
    open spec fn enc(v: RequestModel) -> Seq<u8> {
        str_enc(v.id) + (str_enc(v.factory_id) + (str_enc(v.standard_id) + (Status::enc(v.status) + u64_enc(v.request_date))))
    }

    proof fn lemma_enc_nonempty(v: RequestModel) {
        lemma_auto_spec_u64_to_from_le_bytes();
    }

    fn encode_into(&self, out: &mut Vec<u8>) {
        encode_str(&self.id, out);
        encode_str(&self.factory_id, out);
        encode_str(&self.standard_id, out);
        self.status.encode_into(out);
        encode_u64(self.request_date, out);
        assert(final(out)@ =~= old(out)@ + Self::enc(self@));
    }

    fn decode_from(b: &[u8], pos: usize) -> (r: Option<(Self, usize)>) {
        proof {
            lemma_auto_spec_u64_to_from_le_bytes();
        }
        let (x0, q0) = match decode_str(b, pos) {
            Some(t) => t,
            None => {
                proof {
                    assert forall|m: RequestModel| !#[trigger] encodes_at(b@, pos as int, Self::enc(m)) by {
                        if encodes_at(b@, pos as int, Self::enc(m)) {
                            lemma_encodes_concat(b@, pos as int, str_enc(m.id), str_enc(m.factory_id) + (str_enc(m.standard_id) + (Status::enc(m.status) + u64_enc(m.request_date))));
                            assert(encodes_at(b@, pos as int, str_enc(m.id)));
                        }
                    }
                }
                return None;
            },
        };
        let (x1, q1) = match decode_str(b, q0) {
            Some(t) => t,
            None => {
                proof {
                    assert forall|m: RequestModel| !#[trigger] encodes_at(b@, pos as int, Self::enc(m)) by {
                        if encodes_at(b@, pos as int, Self::enc(m)) {
                            lemma_encodes_concat(b@, pos as int, str_enc(m.id), str_enc(m.factory_id) + (str_enc(m.standard_id) + (Status::enc(m.status) + u64_enc(m.request_date))));
                            assert(m.id == x0@);
                            lemma_encodes_concat(b@, q0 as int, str_enc(m.factory_id), str_enc(m.standard_id) + (Status::enc(m.status) + u64_enc(m.request_date)));
                            assert(encodes_at(b@, q0 as int, str_enc(m.factory_id)));
                        }
                    }
                }
                return None;
            },
        };
        let (x2, q2) = match decode_str(b, q1) {
            Some(t) => t,
            None => {
                proof {
                    assert forall|m: RequestModel| !#[trigger] encodes_at(b@, pos as int, Self::enc(m)) by {
                        if encodes_at(b@, pos as int, Self::enc(m)) {
                            lemma_encodes_concat(b@, pos as int, str_enc(m.id), str_enc(m.factory_id) + (str_enc(m.standard_id) + (Status::enc(m.status) + u64_enc(m.request_date))));
                            assert(m.id == x0@);
                            lemma_encodes_concat(b@, q0 as int, str_enc(m.factory_id), str_enc(m.standard_id) + (Status::enc(m.status) + u64_enc(m.request_date)));
                            assert(m.factory_id == x1@);
                            lemma_encodes_concat(b@, q1 as int, str_enc(m.standard_id), Status::enc(m.status) + u64_enc(m.request_date));
                            assert(encodes_at(b@, q1 as int, str_enc(m.standard_id)));
                        }
                    }
                }
                return None;
            },
        };
        let (x3, q3) = match Status::decode_from(b, q2) {
            Some(t) => t,
            None => {
                proof {
                    assert forall|m: RequestModel| !#[trigger] encodes_at(b@, pos as int, Self::enc(m)) by {
                        if encodes_at(b@, pos as int, Self::enc(m)) {
                            lemma_encodes_concat(b@, pos as int, str_enc(m.id), str_enc(m.factory_id) + (str_enc(m.standard_id) + (Status::enc(m.status) + u64_enc(m.request_date))));
                            assert(m.id == x0@);
                            lemma_encodes_concat(b@, q0 as int, str_enc(m.factory_id), str_enc(m.standard_id) + (Status::enc(m.status) + u64_enc(m.request_date)));
                            assert(m.factory_id == x1@);
                            lemma_encodes_concat(b@, q1 as int, str_enc(m.standard_id), Status::enc(m.status) + u64_enc(m.request_date));
                            assert(m.standard_id == x2@);
                            lemma_encodes_concat(b@, q2 as int, Status::enc(m.status), u64_enc(m.request_date));
                            assert(encodes_at(b@, q2 as int, Status::enc(m.status)));
                        }
                    }
                }
                return None;
            },
        };
        let (x4, q4) = match decode_u64(b, q3) {
            Some(t) => t,
            None => {
                proof {
                    assert forall|m: RequestModel| !#[trigger] encodes_at(b@, pos as int, Self::enc(m)) by {
                        if encodes_at(b@, pos as int, Self::enc(m)) {
                            lemma_encodes_concat(b@, pos as int, str_enc(m.id), str_enc(m.factory_id) + (str_enc(m.standard_id) + (Status::enc(m.status) + u64_enc(m.request_date))));
                            assert(m.id == x0@);
                            lemma_encodes_concat(b@, q0 as int, str_enc(m.factory_id), str_enc(m.standard_id) + (Status::enc(m.status) + u64_enc(m.request_date)));
                            assert(m.factory_id == x1@);
                            lemma_encodes_concat(b@, q1 as int, str_enc(m.standard_id), Status::enc(m.status) + u64_enc(m.request_date));
                            assert(m.standard_id == x2@);
                            lemma_encodes_concat(b@, q2 as int, Status::enc(m.status), u64_enc(m.request_date));
                            assert(m.status == x3@);
                            assert(encodes_at(b@, q3 as int, u64_enc(m.request_date)));
                        }
                    }
                }
                return None;
            },
        };
        let x = RequestRecord { id: x0, factory_id: x1, standard_id: x2, status: x3, request_date: x4 };
        proof {
            lemma_encodes_concat(b@, q2 as int, Status::enc(x@.status), u64_enc(x@.request_date));
            lemma_encodes_concat(b@, q1 as int, str_enc(x@.standard_id), Status::enc(x@.status) + u64_enc(x@.request_date));
            lemma_encodes_concat(b@, q0 as int, str_enc(x@.factory_id), str_enc(x@.standard_id) + (Status::enc(x@.status) + u64_enc(x@.request_date)));
            lemma_encodes_concat(b@, pos as int, str_enc(x@.id), str_enc(x@.factory_id) + (str_enc(x@.standard_id) + (Status::enc(x@.status) + u64_enc(x@.request_date))));
            assert forall|m: RequestModel| #[trigger] encodes_at(b@, pos as int, Self::enc(m)) implies m == x@ by {
                lemma_encodes_concat(b@, pos as int, str_enc(m.id), str_enc(m.factory_id) + (str_enc(m.standard_id) + (Status::enc(m.status) + u64_enc(m.request_date))));
                assert(m.id == x@.id);
                lemma_encodes_concat(b@, q0 as int, str_enc(m.factory_id), str_enc(m.standard_id) + (Status::enc(m.status) + u64_enc(m.request_date)));
                assert(m.factory_id == x@.factory_id);
                lemma_encodes_concat(b@, q1 as int, str_enc(m.standard_id), Status::enc(m.status) + u64_enc(m.request_date));
                assert(m.standard_id == x@.standard_id);
                lemma_encodes_concat(b@, q2 as int, Status::enc(m.status), u64_enc(m.request_date));
                assert(m.status == x@.status);
                assert(m.request_date == x@.request_date);
            }
        }
        Some((x, q4))
    }
}

impl Codec for CertificateRecord {
    open spec fn enc(v: CertificateModel) -> Seq<u8> {
        str_enc(v.id) + (str_enc(v.certifying_body_id) + (str_enc(v.factory_id) + (str_enc(v.standard_id) + (str_enc(v.standard_version) + (u64_enc(v.valid_from) + (u64_enc(v.valid_to) + list_enc::<CertificateDatum>(v.certificate_data)))))))
    }

    proof fn lemma_enc_nonempty(v: CertificateModel) {
        lemma_auto_spec_u64_to_from_le_bytes();
    }

    fn encode_into(&self, out: &mut Vec<u8>) {
        assert(data_view(self.certificate_data@) =~= views(self.certificate_data@));
        encode_str(&self.id, out);
        encode_str(&self.certifying_body_id, out);
        encode_str(&self.factory_id, out);
        encode_str(&self.standard_id, out);
        encode_str(&self.standard_version, out);
        encode_u64(self.valid_from, out);
        encode_u64(self.valid_to, out);
        encode_list(&self.certificate_data, out);
        assert(final(out)@ =~= old(out)@ + Self::enc(self@));
    }

    fn decode_from(b: &[u8], pos: usize) -> (r: Option<(Self, usize)>) {
        proof {
            lemma_auto_spec_u64_to_from_le_bytes();
        }
        let (x0, q0) = match decode_str(b, pos) {
            Some(t) => t,
            None => {
                proof {
                    assert forall|m: CertificateModel| !#[trigger] encodes_at(b@, pos as int, Self::enc(m)) by {
                        if encodes_at(b@, pos as int, Self::enc(m)) {
                            lemma_encodes_concat(b@, pos as int, str_enc(m.id), str_enc(m.certifying_body_id) + (str_enc(m.factory_id) + (str_enc(m.standard_id) + (str_enc(m.standard_version) + (u64_enc(m.valid_from) + (u64_enc(m.valid_to) + list_enc::<CertificateDatum>(m.certificate_data)))))));
                            assert(encodes_at(b@, pos as int, str_enc(m.id)));
                        }
                    }
                }
                return None;
            },
        };
        let (x1, q1) = match decode_str(b, q0) {
            Some(t) => t,
            None => {
                proof {
                    assert forall|m: CertificateModel| !#[trigger] encodes_at(b@, pos as int, Self::enc(m)) by {
                        if encodes_at(b@, pos as int, Self::enc(m)) {
                            lemma_encodes_concat(b@, pos as int, str_enc(m.id), str_enc(m.certifying_body_id) + (str_enc(m.factory_id) + (str_enc(m.standard_id) + (str_enc(m.standard_version) + (u64_enc(m.valid_from) + (u64_enc(m.valid_to) + list_enc::<CertificateDatum>(m.certificate_data)))))));
                            assert(m.id == x0@);
                            lemma_encodes_concat(b@, q0 as int, str_enc(m.certifying_body_id), str_enc(m.factory_id) + (str_enc(m.standard_id) + (str_enc(m.standard_version) + (u64_enc(m.valid_from) + (u64_enc(m.valid_to) + list_enc::<CertificateDatum>(m.certificate_data))))));
                            assert(encodes_at(b@, q0 as int, str_enc(m.certifying_body_id)));
                        }
                    }
                }
                return None;
            },
        };
        let (x2, q2) = match decode_str(b, q1) {
            Some(t) => t,
            None => {
                proof {
                    assert forall|m: CertificateModel| !#[trigger] encodes_at(b@, pos as int, Self::enc(m)) by {
                        if encodes_at(b@, pos as int, Self::enc(m)) {
                            lemma_encodes_concat(b@, pos as int, str_enc(m.id), str_enc(m.certifying_body_id) + (str_enc(m.factory_id) + (str_enc(m.standard_id) + (str_enc(m.standard_version) + (u64_enc(m.valid_from) + (u64_enc(m.valid_to) + list_enc::<CertificateDatum>(m.certificate_data)))))));
                            assert(m.id == x0@);
                            lemma_encodes_concat(b@, q0 as int, str_enc(m.certifying_body_id), str_enc(m.factory_id) + (str_enc(m.standard_id) + (str_enc(m.standard_version) + (u64_enc(m.valid_from) + (u64_enc(m.valid_to) + list_enc::<CertificateDatum>(m.certificate_data))))));
                            assert(m.certifying_body_id == x1@);
                            lemma_encodes_concat(b@, q1 as int, str_enc(m.factory_id), str_enc(m.standard_id) + (str_enc(m.standard_version) + (u64_enc(m.valid_from) + (u64_enc(m.valid_to) + list_enc::<CertificateDatum>(m.certificate_data)))));
                            assert(encodes_at(b@, q1 as int, str_enc(m.factory_id)));
                        }
                    }
                }
                return None;
            },
        };
        let (x3, q3) = match decode_str(b, q2) {
            Some(t) => t,
            None => {
                proof {
                    assert forall|m: CertificateModel| !#[trigger] encodes_at(b@, pos as int, Self::enc(m)) by {
                        if encodes_at(b@, pos as int, Self::enc(m)) {
                            lemma_encodes_concat(b@, pos as int, str_enc(m.id), str_enc(m.certifying_body_id) + (str_enc(m.factory_id) + (str_enc(m.standard_id) + (str_enc(m.standard_version) + (u64_enc(m.valid_from) + (u64_enc(m.valid_to) + list_enc::<CertificateDatum>(m.certificate_data)))))));
                            assert(m.id == x0@);
                            lemma_encodes_concat(b@, q0 as int, str_enc(m.certifying_body_id), str_enc(m.factory_id) + (str_enc(m.standard_id) + (str_enc(m.standard_version) + (u64_enc(m.valid_from) + (u64_enc(m.valid_to) + list_enc::<CertificateDatum>(m.certificate_data))))));
                            assert(m.certifying_body_id == x1@);
                            lemma_encodes_concat(b@, q1 as int, str_enc(m.factory_id), str_enc(m.standard_id) + (str_enc(m.standard_version) + (u64_enc(m.valid_from) + (u64_enc(m.valid_to) + list_enc::<CertificateDatum>(m.certificate_data)))));
                            assert(m.factory_id == x2@);
                            lemma_encodes_concat(b@, q2 as int, str_enc(m.standard_id), str_enc(m.standard_version) + (u64_enc(m.valid_from) + (u64_enc(m.valid_to) + list_enc::<CertificateDatum>(m.certificate_data))));
                            assert(encodes_at(b@, q2 as int, str_enc(m.standard_id)));
                        }
                    }
                }
                return None;
            },
        };
        let (x4, q4) = match decode_str(b, q3) {
            Some(t) => t,
            None => {
                proof {
                    assert forall|m: CertificateModel| !#[trigger] encodes_at(b@, pos as int, Self::enc(m)) by {
                        if encodes_at(b@, pos as int, Self::enc(m)) {
                            lemma_encodes_concat(b@, pos as int, str_enc(m.id), str_enc(m.certifying_body_id) + (str_enc(m.factory_id) + (str_enc(m.standard_id) + (str_enc(m.standard_version) + (u64_enc(m.valid_from) + (u64_enc(m.valid_to) + list_enc::<CertificateDatum>(m.certificate_data)))))));
                            assert(m.id == x0@);
                            lemma_encodes_concat(b@, q0 as int, str_enc(m.certifying_body_id), str_enc(m.factory_id) + (str_enc(m.standard_id) + (str_enc(m.standard_version) + (u64_enc(m.valid_from) + (u64_enc(m.valid_to) + list_enc::<CertificateDatum>(m.certificate_data))))));
                            assert(m.certifying_body_id == x1@);
                            lemma_encodes_concat(b@, q1 as int, str_enc(m.factory_id), str_enc(m.standard_id) + (str_enc(m.standard_version) + (u64_enc(m.valid_from) + (u64_enc(m.valid_to) + list_enc::<CertificateDatum>(m.certificate_data)))));
                            assert(m.factory_id == x2@);
                            lemma_encodes_concat(b@, q2 as int, str_enc(m.standard_id), str_enc(m.standard_version) + (u64_enc(m.valid_from) + (u64_enc(m.valid_to) + list_enc::<CertificateDatum>(m.certificate_data))));
                            assert(m.standard_id == x3@);
                            lemma_encodes_concat(b@, q3 as int, str_enc(m.standard_version), u64_enc(m.valid_from) + (u64_enc(m.valid_to) + list_enc::<CertificateDatum>(m.certificate_data)));
                            assert(encodes_at(b@, q3 as int, str_enc(m.standard_version)));
                        }
                    }
                }
                return None;
            },
        };
        let (x5, q5) = match decode_u64(b, q4) {
            Some(t) => t,
            None => {
                proof {
                    assert forall|m: CertificateModel| !#[trigger] encodes_at(b@, pos as int, Self::enc(m)) by {
                        if encodes_at(b@, pos as int, Self::enc(m)) {
                            lemma_encodes_concat(b@, pos as int, str_enc(m.id), str_enc(m.certifying_body_id) + (str_enc(m.factory_id) + (str_enc(m.standard_id) + (str_enc(m.standard_version) + (u64_enc(m.valid_from) + (u64_enc(m.valid_to) + list_enc::<CertificateDatum>(m.certificate_data)))))));
                            assert(m.id == x0@);
                            lemma_encodes_concat(b@, q0 as int, str_enc(m.certifying_body_id), str_enc(m.factory_id) + (str_enc(m.standard_id) + (str_enc(m.standard_version) + (u64_enc(m.valid_from) + (u64_enc(m.valid_to) + list_enc::<CertificateDatum>(m.certificate_data))))));
                            assert(m.certifying_body_id == x1@);
                            lemma_encodes_concat(b@, q1 as int, str_enc(m.factory_id), str_enc(m.standard_id) + (str_enc(m.standard_version) + (u64_enc(m.valid_from) + (u64_enc(m.valid_to) + list_enc::<CertificateDatum>(m.certificate_data)))));
                            assert(m.factory_id == x2@);
                            lemma_encodes_concat(b@, q2 as int, str_enc(m.standard_id), str_enc(m.standard_version) + (u64_enc(m.valid_from) + (u64_enc(m.valid_to) + list_enc::<CertificateDatum>(m.certificate_data))));
                            assert(m.standard_id == x3@);
                            lemma_encodes_concat(b@, q3 as int, str_enc(m.standard_version), u64_enc(m.valid_from) + (u64_enc(m.valid_to) + list_enc::<CertificateDatum>(m.certificate_data)));
                            assert(m.standard_version == x4@);
                            lemma_encodes_concat(b@, q4 as int, u64_enc(m.valid_from), u64_enc(m.valid_to) + list_enc::<CertificateDatum>(m.certificate_data));
                            assert(encodes_at(b@, q4 as int, u64_enc(m.valid_from)));
                        }
                    }
                }
                return None;
            },
        };
        let (x6, q6) = match decode_u64(b, q5) {
            Some(t) => t,
            None => {
                proof {
                    assert forall|m: CertificateModel| !#[trigger] encodes_at(b@, pos as int, Self::enc(m)) by {
                        if encodes_at(b@, pos as int, Self::enc(m)) {
                            lemma_encodes_concat(b@, pos as int, str_enc(m.id), str_enc(m.certifying_body_id) + (str_enc(m.factory_id) + (str_enc(m.standard_id) + (str_enc(m.standard_version) + (u64_enc(m.valid_from) + (u64_enc(m.valid_to) + list_enc::<CertificateDatum>(m.certificate_data)))))));
                            assert(m.id == x0@);
                            lemma_encodes_concat(b@, q0 as int, str_enc(m.certifying_body_id), str_enc(m.factory_id) + (str_enc(m.standard_id) + (str_enc(m.standard_version) + (u64_enc(m.valid_from) + (u64_enc(m.valid_to) + list_enc::<CertificateDatum>(m.certificate_data))))));
                            assert(m.certifying_body_id == x1@);
                            lemma_encodes_concat(b@, q1 as int, str_enc(m.factory_id), str_enc(m.standard_id) + (str_enc(m.standard_version) + (u64_enc(m.valid_from) + (u64_enc(m.valid_to) + list_enc::<CertificateDatum>(m.certificate_data)))));
                            assert(m.factory_id == x2@);
                            lemma_encodes_concat(b@, q2 as int, str_enc(m.standard_id), str_enc(m.standard_version) + (u64_enc(m.valid_from) + (u64_enc(m.valid_to) + list_enc::<CertificateDatum>(m.certificate_data))));
                            assert(m.standard_id == x3@);
                            lemma_encodes_concat(b@, q3 as int, str_enc(m.standard_version), u64_enc(m.valid_from) + (u64_enc(m.valid_to) + list_enc::<CertificateDatum>(m.certificate_data)));
                            assert(m.standard_version == x4@);
                            lemma_encodes_concat(b@, q4 as int, u64_enc(m.valid_from), u64_enc(m.valid_to) + list_enc::<CertificateDatum>(m.certificate_data));
                            assert(m.valid_from == x5);
                            lemma_encodes_concat(b@, q5 as int, u64_enc(m.valid_to), list_enc::<CertificateDatum>(m.certificate_data));
                            assert(encodes_at(b@, q5 as int, u64_enc(m.valid_to)));
                        }
                    }
                }
                return None;
            },
        };
        let (x7, q7) = match decode_list::<CertificateDatum>(b, q6) {
            Some(t) => t,
            None => {
                proof {
                    assert forall|m: CertificateModel| !#[trigger] encodes_at(b@, pos as int, Self::enc(m)) by {
                        if encodes_at(b@, pos as int, Self::enc(m)) {
                            lemma_encodes_concat(b@, pos as int, str_enc(m.id), str_enc(m.certifying_body_id) + (str_enc(m.factory_id) + (str_enc(m.standard_id) + (str_enc(m.standard_version) + (u64_enc(m.valid_from) + (u64_enc(m.valid_to) + list_enc::<CertificateDatum>(m.certificate_data)))))));
                            assert(m.id == x0@);
                            lemma_encodes_concat(b@, q0 as int, str_enc(m.certifying_body_id), str_enc(m.factory_id) + (str_enc(m.standard_id) + (str_enc(m.standard_version) + (u64_enc(m.valid_from) + (u64_enc(m.valid_to) + list_enc::<CertificateDatum>(m.certificate_data))))));
                            assert(m.certifying_body_id == x1@);
                            lemma_encodes_concat(b@, q1 as int, str_enc(m.factory_id), str_enc(m.standard_id) + (str_enc(m.standard_version) + (u64_enc(m.valid_from) + (u64_enc(m.valid_to) + list_enc::<CertificateDatum>(m.certificate_data)))));
                            assert(m.factory_id == x2@);
                            lemma_encodes_concat(b@, q2 as int, str_enc(m.standard_id), str_enc(m.standard_version) + (u64_enc(m.valid_from) + (u64_enc(m.valid_to) + list_enc::<CertificateDatum>(m.certificate_data))));
                            assert(m.standard_id == x3@);
                            lemma_encodes_concat(b@, q3 as int, str_enc(m.standard_version), u64_enc(m.valid_from) + (u64_enc(m.valid_to) + list_enc::<CertificateDatum>(m.certificate_data)));
                            assert(m.standard_version == x4@);
                            lemma_encodes_concat(b@, q4 as int, u64_enc(m.valid_from), u64_enc(m.valid_to) + list_enc::<CertificateDatum>(m.certificate_data));
                            assert(m.valid_from == x5);
                            lemma_encodes_concat(b@, q5 as int, u64_enc(m.valid_to), list_enc::<CertificateDatum>(m.certificate_data));
                            assert(m.valid_to == x6);
                            assert(encodes_at(b@, q6 as int, list_enc::<CertificateDatum>(m.certificate_data)));
                        }
                    }
                }
                return None;
            },
        };
        let x = CertificateRecord { id: x0, certifying_body_id: x1, factory_id: x2, standard_id: x3, standard_version: x4, valid_from: x5, valid_to: x6, certificate_data: x7 };
        proof {
            assert(data_view(x.certificate_data@) =~= views(x.certificate_data@));
            lemma_encodes_concat(b@, q5 as int, u64_enc(x@.valid_to), list_enc::<CertificateDatum>(x@.certificate_data));
            lemma_encodes_concat(b@, q4 as int, u64_enc(x@.valid_from), u64_enc(x@.valid_to) + list_enc::<CertificateDatum>(x@.certificate_data));
            lemma_encodes_concat(b@, q3 as int, str_enc(x@.standard_version), u64_enc(x@.valid_from) + (u64_enc(x@.valid_to) + list_enc::<CertificateDatum>(x@.certificate_data)));
            lemma_encodes_concat(b@, q2 as int, str_enc(x@.standard_id), str_enc(x@.standard_version) + (u64_enc(x@.valid_from) + (u64_enc(x@.valid_to) + list_enc::<CertificateDatum>(x@.certificate_data))));
            lemma_encodes_concat(b@, q1 as int, str_enc(x@.factory_id), str_enc(x@.standard_id) + (str_enc(x@.standard_version) + (u64_enc(x@.valid_from) + (u64_enc(x@.valid_to) + list_enc::<CertificateDatum>(x@.certificate_data)))));
            lemma_encodes_concat(b@, q0 as int, str_enc(x@.certifying_body_id), str_enc(x@.factory_id) + (str_enc(x@.standard_id) + (str_enc(x@.standard_version) + (u64_enc(x@.valid_from) + (u64_enc(x@.valid_to) + list_enc::<CertificateDatum>(x@.certificate_data))))));
            lemma_encodes_concat(b@, pos as int, str_enc(x@.id), str_enc(x@.certifying_body_id) + (str_enc(x@.factory_id) + (str_enc(x@.standard_id) + (str_enc(x@.standard_version) + (u64_enc(x@.valid_from) + (u64_enc(x@.valid_to) + list_enc::<CertificateDatum>(x@.certificate_data)))))));
            assert forall|m: CertificateModel| #[trigger] encodes_at(b@, pos as int, Self::enc(m)) implies m == x@ by {
                lemma_encodes_concat(b@, pos as int, str_enc(m.id), str_enc(m.certifying_body_id) + (str_enc(m.factory_id) + (str_enc(m.standard_id) + (str_enc(m.standard_version) + (u64_enc(m.valid_from) + (u64_enc(m.valid_to) + list_enc::<CertificateDatum>(m.certificate_data)))))));
                assert(m.id == x@.id);
                lemma_encodes_concat(b@, q0 as int, str_enc(m.certifying_body_id), str_enc(m.factory_id) + (str_enc(m.standard_id) + (str_enc(m.standard_version) + (u64_enc(m.valid_from) + (u64_enc(m.valid_to) + list_enc::<CertificateDatum>(m.certificate_data))))));
                assert(m.certifying_body_id == x@.certifying_body_id);
                lemma_encodes_concat(b@, q1 as int, str_enc(m.factory_id), str_enc(m.standard_id) + (str_enc(m.standard_version) + (u64_enc(m.valid_from) + (u64_enc(m.valid_to) + list_enc::<CertificateDatum>(m.certificate_data)))));
                assert(m.factory_id == x@.factory_id);
                lemma_encodes_concat(b@, q2 as int, str_enc(m.standard_id), str_enc(m.standard_version) + (u64_enc(m.valid_from) + (u64_enc(m.valid_to) + list_enc::<CertificateDatum>(m.certificate_data))));
                assert(m.standard_id == x@.standard_id);
                lemma_encodes_concat(b@, q3 as int, str_enc(m.standard_version), u64_enc(m.valid_from) + (u64_enc(m.valid_to) + list_enc::<CertificateDatum>(m.certificate_data)));
                assert(m.standard_version == x@.standard_version);
                lemma_encodes_concat(b@, q4 as int, u64_enc(m.valid_from), u64_enc(m.valid_to) + list_enc::<CertificateDatum>(m.certificate_data));
                assert(m.valid_from == x@.valid_from);
                lemma_encodes_concat(b@, q5 as int, u64_enc(m.valid_to), list_enc::<CertificateDatum>(m.certificate_data));
                assert(m.valid_to == x@.valid_to);
                assert(m.certificate_data == x@.certificate_data);
            }
        }
        Some((x, q7))
    }
}

} // verus!
