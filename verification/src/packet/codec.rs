//! SSH-2 binary packet protocol (RFC 4253 §6) and the wire types of RFC 4251 §5.
use vstd::prelude::*;
use vstd::utf8::*;

use crate::error::{decimal_text, SshError, SshResult, text_with_number};
use crate::packet::types::{MessageType, MAX_PACKET_SIZE, MIN_PADDING};

verus! {

broadcast use vstd::utf8::encode_utf8_valid_utf8, vstd::utf8::encode_utf8_decode_utf8;

// ---------------------------------------------------------------------------
// Big-endian integers
// ---------------------------------------------------------------------------

/// The four big-endian bytes of `v`.
pub open spec fn u32_be(v: u32) -> Seq<u8> {
    seq![
        ((v >> 24u32) & 0xffu32) as u8,
        ((v >> 16u32) & 0xffu32) as u8,
        ((v >> 8u32) & 0xffu32) as u8,
        (v & 0xffu32) as u8,
    ]
}

/// The number whose big-endian bytes are `b[0..4]`.
pub open spec fn u32_of_be(b: Seq<u8>) -> u32 {
    ((b[0] as u32) << 24u32) | ((b[1] as u32) << 16u32) | ((b[2] as u32) << 8u32) | (b[3] as u32)
}

/// The eight big-endian bytes of `v`.
pub open spec fn u64_be(v: u64) -> Seq<u8> {
    u32_be((v >> 32u64) as u32) + u32_be((v & 0xffff_ffffu64) as u32)
}

/// The number whose big-endian bytes are `b[0..8]`.
pub open spec fn u64_of_be(b: Seq<u8>) -> u64 {
    ((u32_of_be(b) as u64) << 32u64) | (u32_of_be(b.subrange(4, 8)) as u64)
}

/// A number written big-endian reads back as itself.
pub proof fn lemma_u32_be_roundtrip(v: u32)
    ensures
        u32_of_be(u32_be(v)) == v,
        u32_be(v).len() == 4,
{
    let b0 = ((v >> 24u32) & 0xffu32) as u8;
    let b1 = ((v >> 16u32) & 0xffu32) as u8;
    let b2 = ((v >> 8u32) & 0xffu32) as u8;
    let b3 = (v & 0xffu32) as u8;
    assert(((b0 as u32) << 24u32) | ((b1 as u32) << 16u32) | ((b2 as u32) << 8u32) | (b3 as u32)
        == v) by (bit_vector)
        requires
            b0 == ((v >> 24u32) & 0xffu32) as u8,
            b1 == ((v >> 16u32) & 0xffu32) as u8,
            b2 == ((v >> 8u32) & 0xffu32) as u8,
            b3 == (v & 0xffu32) as u8,
    ;
}

/// Four bytes read as a big-endian number and written back are the same bytes.
pub proof fn lemma_u32_of_be_roundtrip(b: Seq<u8>)
    requires
        b.len() == 4,
    ensures
        u32_be(u32_of_be(b)) == b,
{
    let (b0, b1, b2, b3) = (b[0], b[1], b[2], b[3]);
    let x = u32_of_be(b);
    assert(((x >> 24u32) & 0xffu32) as u8 == b0 && ((x >> 16u32) & 0xffu32) as u8 == b1 && ((x
        >> 8u32) & 0xffu32) as u8 == b2 && (x & 0xffu32) as u8 == b3) by (bit_vector)
        requires
            x == ((b0 as u32) << 24u32) | ((b1 as u32) << 16u32) | ((b2 as u32) << 8u32) | (
            b3 as u32),
    ;
    assert(u32_be(x) =~= b);
}

/// A 64-bit number written big-endian reads back as itself.
pub proof fn lemma_u64_be_roundtrip(v: u64)
    ensures
        u64_of_be(u64_be(v)) == v,
        u64_be(v).len() == 8,
{
    let hi = (v >> 32u64) as u32;
    let lo = (v & 0xffff_ffffu64) as u32;
    lemma_u32_be_roundtrip(hi);
    lemma_u32_be_roundtrip(lo);
    let b = u64_be(v);
    assert(b.subrange(4, 8) =~= u32_be(lo));
    assert(b.subrange(0, 4) =~= u32_be(hi));
    assert(u32_of_be(b) == u32_of_be(u32_be(hi)));
    assert((((hi as u64) << 32u64) | (lo as u64)) == v) by (bit_vector)
        requires
            hi == (v >> 32u64) as u32,
            lo == (v & 0xffff_ffffu64) as u32,
    ;
}

// ---------------------------------------------------------------------------
// Wire encodings
// ---------------------------------------------------------------------------

/// An SSH `string`: a uint32 length followed by the bytes.
pub open spec fn ssh_string(data: Seq<u8>) -> Seq<u8> {
    u32_be(data.len() as u32) + data
}

/// An SSH `string` holding the UTF-8 encoding of `s`.
pub open spec fn ssh_utf8(s: Seq<char>) -> Seq<u8> {
    ssh_string(encode_utf8(s))
}

/// An SSH `boolean`.
pub open spec fn ssh_bool(b: bool) -> Seq<u8> {
    seq![if b { 1u8 } else { 0u8 }]
}

/// The names joined by `sep`, in order.
pub open spec fn join_chars(names: Seq<Seq<char>>, sep: char) -> Seq<char>
    decreases names.len(),
{
    if names.len() == 0 {
        Seq::empty()
    } else if names.len() == 1 {
        names[0]
    } else {
        join_chars(names.drop_last(), sep) + seq![sep] + names.last()
    }
}

/// The pieces of `s` between occurrences of `sep` (as `str::split` gives them).
pub open spec fn split_chars(s: Seq<char>, sep: char) -> Seq<Seq<char>>
    decreases s.len(),
{
    if s.len() == 0 {
        seq![Seq::<char>::empty()]
    } else {
        let pieces = split_chars(s.drop_last(), sep);
        if s.last() == sep {
            pieces.push(Seq::empty())
        } else {
            pieces.update(pieces.len() - 1, pieces.last().push(s.last()))
        }
    }
}

/// An SSH `name-list`: the names joined by commas, as a string.
pub open spec fn ssh_name_list(names: Seq<Seq<char>>) -> Seq<u8> {
    ssh_utf8(join_chars(names, ','))
}

/// The magnitude bytes of an mpint: leading zero bytes dropped, and a single
/// zero byte when nothing else is left.
pub open spec fn mpint_magnitude(val: Seq<u8>) -> Seq<u8>
    decreases val.len(),
{
    if val.len() == 0 {
        seq![0u8]
    } else if val[0] == 0 {
        if val.len() == 1 {
            seq![0u8]
        } else {
            mpint_magnitude(val.drop_first())
        }
    } else {
        val
    }
}

/// An SSH `mpint` of the unsigned big-endian number `val`: a zero byte is put
/// before a magnitude whose high bit is set.
pub open spec fn ssh_mpint(val: Seq<u8>) -> Seq<u8> {
    let m = mpint_magnitude(val);
    if m[0] & 0x80u8 != 0 {
        u32_be((m.len() + 1) as u32) + seq![0u8] + m
    } else {
        u32_be(m.len() as u32) + m
    }
}

// ---------------------------------------------------------------------------
// Reading wire types
// ---------------------------------------------------------------------------

/// The bytes left after position `p`.
pub open spec fn remaining(d: Seq<u8>, p: int) -> int {
    if p < d.len() {
        d.len() - p
    } else {
        0
    }
}

/// Reading `n` bytes at position `p`: the bytes, if there are enough, and the
/// new position (the end of the data when there are not).
pub open spec fn read_bytes_at(d: Seq<u8>, p: int, n: int) -> (Option<Seq<u8>>, int) {
    if n == 0 {
        (Some(Seq::empty()), p)
    } else if p + n <= d.len() {
        (Some(d.subrange(p, p + n)), p + n)
    } else {
        (None, d.len() as int)
    }
}

pub open spec fn read_u8_at(d: Seq<u8>, p: int) -> (Option<u8>, int) {
    let (b, q) = read_bytes_at(d, p, 1);
    match b {
        Some(b) => (Some(b[0]), q),
        None => (None, q),
    }
}

pub open spec fn read_u32_at(d: Seq<u8>, p: int) -> (Option<u32>, int) {
    let (b, q) = read_bytes_at(d, p, 4);
    match b {
        Some(b) => (Some(u32_of_be(b)), q),
        None => (None, q),
    }
}

pub open spec fn read_u64_at(d: Seq<u8>, p: int) -> (Option<u64>, int) {
    let (b, q) = read_bytes_at(d, p, 8);
    match b {
        Some(b) => (Some(u64_of_be(b)), q),
        None => (None, q),
    }
}

pub open spec fn read_bool_at(d: Seq<u8>, p: int) -> (Option<bool>, int) {
    let (b, q) = read_u8_at(d, p);
    match b {
        Some(b) => (Some(b != 0), q),
        None => (None, q),
    }
}

/// Reading an SSH `string`; strings longer than `MAX_PACKET_SIZE` are refused.
pub open spec fn read_string_at(d: Seq<u8>, p: int) -> (Option<Seq<u8>>, int) {
    let (n, q) = read_u32_at(d, p);
    match n {
        Some(n) => if n > MAX_PACKET_SIZE {
            (None, q)
        } else {
            read_bytes_at(d, q, n as int)
        },
        None => (None, q),
    }
}

/// Reading an SSH `string` that must hold valid UTF-8.
pub open spec fn read_utf8_at(d: Seq<u8>, p: int) -> (Option<Seq<char>>, int) {
    let (s, q) = read_string_at(d, p);
    match s {
        Some(s) => if valid_utf8(s) {
            (Some(decode_utf8(s)), q)
        } else {
            (None, q)
        },
        None => (None, q),
    }
}

/// Reading an SSH `name-list`; the empty string is the empty list.
pub open spec fn read_name_list_at(d: Seq<u8>, p: int) -> (Option<Seq<Seq<char>>>, int) {
    let (s, q) = read_utf8_at(d, p);
    match s {
        Some(s) => if s.len() == 0 {
            (Some(Seq::empty()), q)
        } else {
            (Some(split_chars(s, ',')), q)
        },
        None => (None, q),
    }
}

// ---------------------------------------------------------------------------
// Read-after-write facts
// ---------------------------------------------------------------------------

/// Reading `e.len()` bytes where `e` stands gives `e` and the position after it.
pub proof fn lemma_read_bytes_of(d: Seq<u8>, p: int, e: Seq<u8>)
    requires
        0 <= p,
        p + e.len() <= d.len(),
        d.subrange(p, p + e.len()) == e,
    ensures
        read_bytes_at(d, p, e.len() as int) == (Some(e), p + e.len()),
{
    if e.len() == 0 {
        assert(e =~= Seq::<u8>::empty());
    }
}

/// Reading a boolean where one was written gives it back.
pub proof fn lemma_read_bool_of(d: Seq<u8>, p: int, v: bool)
    requires
        0 <= p,
        p + 1 <= d.len(),
        d.subrange(p, p + 1) == ssh_bool(v),
    ensures
        read_bool_at(d, p) == (Some(v), p + 1),
{
    assert(d[p] == d.subrange(p, p + 1)[0]);
}

/// Reading a uint32 where one was written gives it back.
pub proof fn lemma_read_u32_of(d: Seq<u8>, p: int, v: u32)
    requires
        0 <= p,
        p + 4 <= d.len(),
        d.subrange(p, p + 4) == u32_be(v),
    ensures
        read_u32_at(d, p) == (Some(v), p + 4),
{
    lemma_u32_be_roundtrip(v);
    lemma_read_bytes_of(d, p, u32_be(v));
}

/// Reading a uint64 where one was written gives it back.
pub proof fn lemma_read_u64_of(d: Seq<u8>, p: int, v: u64)
    requires
        0 <= p,
        p + 8 <= d.len(),
        d.subrange(p, p + 8) == u64_be(v),
    ensures
        read_u64_at(d, p) == (Some(v), p + 8),
{
    lemma_u64_be_roundtrip(v);
    lemma_read_bytes_of(d, p, u64_be(v));
}

/// Reading an SSH string where one was written gives it back.
pub proof fn lemma_read_string_of(d: Seq<u8>, p: int, s: Seq<u8>)
    requires
        0 <= p,
        s.len() <= MAX_PACKET_SIZE,
        p + 4 + s.len() <= d.len(),
        d.subrange(p, p + 4 + s.len()) == ssh_string(s),
    ensures
        read_string_at(d, p) == (Some(s), p + 4 + s.len()),
{
    let e = ssh_string(s);
    assert(d.subrange(p, p + 4) =~= e.subrange(0, 4));
    assert(e.subrange(0, 4) =~= u32_be(s.len() as u32));
    lemma_read_u32_of(d, p, s.len() as u32);
    assert(d.subrange(p + 4, p + 4 + s.len()) =~= e.subrange(4, 4 + s.len() as int));
    assert(e.subrange(4, 4 + s.len() as int) =~= s);
    lemma_read_bytes_of(d, p + 4, s);
}

/// Reading a UTF-8 SSH string where one was written gives it back.
pub proof fn lemma_read_utf8_of(d: Seq<u8>, p: int, s: Seq<char>)
    requires
        0 <= p,
        encode_utf8(s).len() <= MAX_PACKET_SIZE,
        p + 4 + encode_utf8(s).len() <= d.len(),
        d.subrange(p, p + 4 + encode_utf8(s).len()) == ssh_utf8(s),
    ensures
        read_utf8_at(d, p) == (Some(s), p + 4 + encode_utf8(s).len()),
{
    lemma_read_string_of(d, p, encode_utf8(s));
}

// ---------------------------------------------------------------------------
// Names and lists
// ---------------------------------------------------------------------------

pub open spec fn no_sep(s: Seq<char>, sep: char) -> bool {
    forall|i: int| 0 <= i < s.len() ==> s[i] != sep
}

proof fn lemma_split_append_plain(a: Seq<char>, b: Seq<char>, sep: char)
    requires
        no_sep(b, sep),
    ensures
        split_chars(a + b, sep) == split_chars(a, sep).update(
            split_chars(a, sep).len() - 1,
            split_chars(a, sep).last() + b,
        ),
        split_chars(a, sep).len() >= 1,
    decreases b.len(),
{
    lemma_split_nonempty(a, sep);
    if b.len() == 0 {
        assert(a + b =~= a);
        let pa = split_chars(a, sep);
        assert(pa.last() + b =~= pa.last());
        assert(pa.update(pa.len() - 1, pa.last()) =~= pa);
    } else {
        let b0 = b.drop_last();
        assert(no_sep(b0, sep));
        lemma_split_append_plain(a, b0, sep);
        assert((a + b).drop_last() =~= a + b0);
        assert((a + b).last() == b.last());
        let pa = split_chars(a, sep);
        let p0 = split_chars(a + b0, sep);
        lemma_split_nonempty(a + b0, sep);
        assert(p0.last() == pa.last() + b0);
        assert(p0.len() == pa.len());
        assert((pa.last() + b0).push(b.last()) =~= pa.last() + b);
        assert(split_chars(a + b, sep) == p0.update(p0.len() - 1, p0.last().push(b.last())));
        assert(p0.update(p0.len() - 1, p0.last().push(b.last())) =~= pa.update(
            pa.len() - 1,
            pa.last() + b,
        ));
    }
}

proof fn lemma_split_nonempty(a: Seq<char>, sep: char)
    ensures
        split_chars(a, sep).len() >= 1,
    decreases a.len(),
{
    if a.len() > 0 {
        lemma_split_nonempty(a.drop_last(), sep);
    }
}

/// Splitting the names joined by a separator gives the names back, when no
/// name holds the separator.
pub proof fn lemma_split_join(names: Seq<Seq<char>>, sep: char)
    requires
        names.len() >= 1,
        forall|i: int| 0 <= i < names.len() ==> no_sep(#[trigger] names[i], sep),
    ensures
        split_chars(join_chars(names, sep), sep) == names,
    decreases names.len(),
{
    if names.len() == 1 {
        let e = Seq::<char>::empty();
        lemma_split_append_plain(e, names[0], sep);
        assert(e + names[0] =~= names[0]);
        assert(split_chars(e, sep) =~= seq![e]);
        assert(seq![e].update(0, e + names[0]) =~= names);
    } else {
        let init = names.drop_last();
        assert forall|i: int| 0 <= i < init.len() implies no_sep(#[trigger] init[i], sep) by {
            assert(init[i] == names[i]);
        }
        lemma_split_join(init, sep);
        let j = join_chars(init, sep);
        let js = j + seq![sep];
        assert(js.drop_last() =~= j);
        lemma_split_nonempty(j, sep);
        assert(split_chars(js, sep) == split_chars(j, sep).push(Seq::empty()));
        assert(no_sep(names.last(), sep));
        lemma_split_append_plain(js, names.last(), sep);
        let pj = split_chars(js, sep);
        assert(pj.last() + names.last() =~= names.last());
        assert(join_chars(names, sep) == js + names.last());
        assert(pj.update(pj.len() - 1, pj.last() + names.last()) =~= names);
    }
}


// ---------------------------------------------------------------------------
// Byte helpers
// ---------------------------------------------------------------------------

/// Appends `src` to `buf`.
pub fn append_bytes(buf: &mut Vec<u8>, src: &[u8])
    ensures
        final(buf)@ == old(buf)@ + src@,
{
    let n = src.len();
    let mut i: usize = 0;
    while i < n
        invariant
            n == src@.len(),
            i <= n,
            buf@ == old(buf)@ + src@.subrange(0, i as int),
        decreases n - i,
    {
        buf.push(src[i]);
        i = i + 1;
        assert(src@.subrange(0, i as int) =~= src@.subrange(0, i - 1) + seq![src@[i - 1]]);
        assert(buf@ =~= old(buf)@ + src@.subrange(0, i as int));
    }
    assert(src@.subrange(0, n as int) =~= src@);
}

/// Whether two byte slices hold the same bytes.
pub fn bytes_eq(a: &[u8], b: &[u8]) -> (r: bool)
    ensures
        r == (a@ == b@),
{
    if a.len() != b.len() {
        return false;
    }
    let n = a.len();
    let mut i: usize = 0;
    while i < n
        invariant
            n == a@.len(),
            n == b@.len(),
            i <= n,
            forall|j: int| 0 <= j < i ==> a@[j] == b@[j],
        decreases n - i,
    {
        if a[i] != b[i] {
            return false;
        }
        i = i + 1;
    }
    assert(a@ =~= b@);
    true
}

/// Calls `String::from_utf8` (std): the string that `bytes` encode, if they
/// are valid UTF-8.
#[verifier::external_body]
pub(crate) fn string_from_utf8(bytes: Vec<u8>) -> (r: Option<String>)
    ensures
        r is Some <==> valid_utf8(bytes@),
        r matches Some(s) ==> s@ == decode_utf8(bytes@),
{
    String::from_utf8(bytes).ok()
}

// ---------------------------------------------------------------------------
// Cursor over received bytes
// ---------------------------------------------------------------------------

/// A read position over a byte slice (the behaviour of `std::io::Cursor`
/// over `&[u8]` that the wire readers need).
pub struct Cursor<'a> {
    data: &'a [u8],
    pos: u64,
}

impl<'a> Cursor<'a> {
    /// The bytes the cursor reads.
    pub closed spec fn bytes(&self) -> Seq<u8> {
        self.data@
    }

    /// The current read position.
    pub closed spec fn pos(&self) -> int {
        self.pos as int
    }

    pub fn new(data: &'a [u8]) -> (c: Self)
        ensures
            c.bytes() == data@,
            c.pos() == 0,
    {
        Cursor { data, pos: 0 }
    }

    pub fn position(&self) -> (p: u64)
        ensures
            p == self.pos(),
    {
        self.pos
    }

    pub fn set_position(&mut self, pos: u64)
        ensures
            final(self).bytes() == old(self).bytes(),
            final(self).pos() == pos,
    {
        self.pos = pos;
    }

    /// Reads exactly `n` bytes (as `Read::read_exact` on a cursor does).
    pub fn read_exact(&mut self, n: usize) -> (r: Option<Vec<u8>>)
        ensures
            final(self).bytes() == old(self).bytes(),
            (match r {
                Some(v) => Some(v@),
                None => None,
            }, final(self).pos()) == read_bytes_at(old(self).bytes(), old(self).pos(), n as int),
    {
        let len = self.data.len();
        if n == 0 {
            return Some(Vec::new());
        }
        if self.pos < len as u64 && (n as u64) <= (len as u64) - self.pos {
            let start = self.pos as usize;
            let v = vstd::slice::slice_to_vec(vstd::slice::slice_subrange(self.data, start, start + n));
            self.pos = self.pos + n as u64;
            Some(v)
        } else {
            self.pos = len as u64;
            None
        }
    }

    pub fn read_u8(&mut self) -> (r: Option<u8>)
        ensures
            final(self).bytes() == old(self).bytes(),
            (r, final(self).pos()) == read_u8_at(old(self).bytes(), old(self).pos()),
    {
        match self.read_exact(1) {
            Some(v) => Some(v[0]),
            None => None,
        }
    }

    pub fn read_u32_be(&mut self) -> (r: Option<u32>)
        ensures
            final(self).bytes() == old(self).bytes(),
            (r, final(self).pos()) == read_u32_at(old(self).bytes(), old(self).pos()),
    {
        match self.read_exact(4) {
            Some(b) => Some(
                ((b[0] as u32) << 24u32) | ((b[1] as u32) << 16u32) | ((b[2] as u32) << 8u32) | (
                b[3] as u32),
            ),
            None => None,
        }
    }

    pub fn read_u64_be(&mut self) -> (r: Option<u64>)
        ensures
            final(self).bytes() == old(self).bytes(),
            (r, final(self).pos()) == read_u64_at(old(self).bytes(), old(self).pos()),
    {
        match self.read_exact(8) {
            Some(b) => {
                let hi = ((b[0] as u32) << 24u32) | ((b[1] as u32) << 16u32) | ((b[2] as u32) << 8u32)
                    | (b[3] as u32);
                let lo = ((b[4] as u32) << 24u32) | ((b[5] as u32) << 16u32) | ((b[6] as u32) << 8u32)
                    | (b[7] as u32);
                proof {
                    let sb = b@.subrange(4, 8);
                    assert(sb[0] == b@[4] && sb[1] == b@[5] && sb[2] == b@[6] && sb[3] == b@[7]);
                }
                Some(((hi as u64) << 32u64) | (lo as u64))
            },
            None => None,
        }
    }
}

// ---------------------------------------------------------------------------
// SSH wire type helpers
// ---------------------------------------------------------------------------

/// Helpers for reading and writing SSH-2 wire types.
pub struct SshBuf;

impl SshBuf {
    /// Write an SSH string (uint32 length + data).
    pub fn write_string(buf: &mut Vec<u8>, data: &[u8])
        ensures
            final(buf)@ == old(buf)@ + ssh_string(data@),
    {
        Self::write_u32(buf, #[verifier::truncate] (data.len() as u32));
        append_bytes(buf, data);
        assert(final(buf)@ =~= old(buf)@ + ssh_string(data@));
    }

    /// Write a UTF-8 SSH string.
    pub fn write_utf8(buf: &mut Vec<u8>, s: &str)
        ensures
            final(buf)@ == old(buf)@ + ssh_utf8(s@),
    {
        Self::write_string(buf, s.as_bytes());
    }

    /// Write a name-list (comma-separated names).
    pub fn write_name_list(buf: &mut Vec<u8>, names: &[&str])
        ensures
            final(buf)@ == old(buf)@ + ssh_name_list(names@.map_values(|n: &str| n@)),
    {
        let ghost views = names@.map_values(|n: &str| n@);
        let mut joined = String::new();
        let mut i: usize = 0;
        while i < names.len()
            invariant
                views == names@.map_values(|n: &str| n@),
                i <= names@.len(),
                joined@ == join_chars(views.subrange(0, i as int), ','),
            decreases names@.len() - i,
        {
            if i > 0 {
                joined.append(",");
                proof { reveal_strlit(","); }
            }
            joined.append(names[i]);
            proof {
                let sub = views.subrange(0, i + 1);
                assert(sub.drop_last() =~= views.subrange(0, i as int));
                assert(sub.last() == names@[i as int]@);
                if i == 0 {
                    assert(joined@ =~= names@[0]@);
                } else {
                    assert(","@ =~= seq![',']);
                }
            }
            i = i + 1;
        }
        assert(views.subrange(0, names@.len() as int) =~= views);
        Self::write_utf8(buf, joined.as_str());
    }

    /// Write a boolean.
    pub fn write_bool(buf: &mut Vec<u8>, val: bool)
        ensures
            final(buf)@ == old(buf)@ + ssh_bool(val),
    {
        buf.push(if val { 1 } else { 0 });
        assert(final(buf)@ =~= old(buf)@ + ssh_bool(val));
    }

    /// Write a uint32 (big-endian).
    pub fn write_u32(buf: &mut Vec<u8>, val: u32)
        ensures
            final(buf)@ == old(buf)@ + u32_be(val),
    {
        buf.push(((val >> 24u32) & 0xffu32) as u8);
        buf.push(((val >> 16u32) & 0xffu32) as u8);
        buf.push(((val >> 8u32) & 0xffu32) as u8);
        buf.push((val & 0xffu32) as u8);
        assert(final(buf)@ =~= old(buf)@ + u32_be(val));
    }

    /// Write a byte.
    pub fn write_u8(buf: &mut Vec<u8>, val: u8)
        ensures
            final(buf)@ == old(buf)@ + seq![val],
    {
        buf.push(val);
        assert(final(buf)@ =~= old(buf)@ + seq![val]);
    }

    /// Write an SSH mpint (multi-precision integer) of an unsigned big-endian number.
    pub fn write_mpint(buf: &mut Vec<u8>, val: &[u8])
        requires
            val@.len() < usize::MAX,
        ensures
            final(buf)@ == old(buf)@ + ssh_mpint(val@),
    {
        let m = mpint_magnitude_of(val);
        if m[0] & 0x80u8 != 0 {
            Self::write_u32(buf, #[verifier::truncate] ((m.len() + 1) as u32));
            buf.push(0);
        } else {
            Self::write_u32(buf, #[verifier::truncate] (m.len() as u32));
        }
        append_bytes(buf, m.as_slice());
        assert(final(buf)@ =~= old(buf)@ + ssh_mpint(val@));
    }

    /// Read an SSH string from a cursor. Returns the raw bytes.
    pub fn read_string(cursor: &mut Cursor) -> (r: SshResult<Vec<u8>>)
        ensures
            final(cursor).bytes() == old(cursor).bytes(),
            final(cursor).pos() == read_string_at(old(cursor).bytes(), old(cursor).pos()).1,
            match read_string_at(old(cursor).bytes(), old(cursor).pos()).0 {
                Some(s) => r matches Ok(v) && v@ == s,
                None => r matches Err(e) && e is InvalidPacket,
            },
    {
        let len = match cursor.read_u32_be() {
            Some(n) => n,
            None => {
                return Err(SshError::InvalidPacket("Failed to read string length".to_string()));
            },
        };
        if len as usize > MAX_PACKET_SIZE {
            return Err(SshError::InvalidPacket("String too long".to_string()));
        }
        match cursor.read_exact(len as usize) {
            Some(v) => Ok(v),
            None => Err(SshError::InvalidPacket("Truncated string".to_string())),
        }
    }

    /// Read a UTF-8 SSH string.
    pub fn read_utf8(cursor: &mut Cursor) -> (r: SshResult<String>)
        ensures
            final(cursor).bytes() == old(cursor).bytes(),
            final(cursor).pos() == read_utf8_at(old(cursor).bytes(), old(cursor).pos()).1,
            match read_utf8_at(old(cursor).bytes(), old(cursor).pos()).0 {
                Some(s) => r matches Ok(v) && v@ == s,
                None => r matches Err(e) && e is InvalidPacket,
            },
    {
        let data = Self::read_string(cursor)?;
        match string_from_utf8(data) {
            Some(s) => Ok(s),
            None => Err(SshError::InvalidPacket("Invalid UTF-8 string".to_string())),
        }
    }

    /// Read a name-list.
    pub fn read_name_list(cursor: &mut Cursor) -> (r: SshResult<Vec<String>>)
        ensures
            final(cursor).bytes() == old(cursor).bytes(),
            final(cursor).pos() == read_name_list_at(old(cursor).bytes(), old(cursor).pos()).1,
            match read_name_list_at(old(cursor).bytes(), old(cursor).pos()).0 {
                Some(l) => r matches Ok(v) && v@.map_values(|x: String| x@) == l,
                None => r matches Err(e) && e is InvalidPacket,
            },
    {
        let s = Self::read_utf8(cursor)?;
        if s.unicode_len() == 0 {
            let v: Vec<String> = Vec::new();
            assert(v@.map_values(|x: String| x@) =~= Seq::<Seq<char>>::empty());
            return Ok(v);
        }
        Ok(split_string(s.as_str(), ','))
    }

    /// Read a boolean.
    pub fn read_bool(cursor: &mut Cursor) -> (r: SshResult<bool>)
        ensures
            final(cursor).bytes() == old(cursor).bytes(),
            final(cursor).pos() == read_bool_at(old(cursor).bytes(), old(cursor).pos()).1,
            match read_bool_at(old(cursor).bytes(), old(cursor).pos()).0 {
                Some(b) => r == Ok::<bool, SshError>(b),
                None => r matches Err(e) && e is InvalidPacket,
            },
    {
        match cursor.read_u8() {
            Some(b) => Ok(b != 0),
            None => Err(SshError::InvalidPacket("Failed to read bool".to_string())),
        }
    }

    /// Read a uint32.
    pub fn read_u32(cursor: &mut Cursor) -> (r: SshResult<u32>)
        ensures
            final(cursor).bytes() == old(cursor).bytes(),
            final(cursor).pos() == read_u32_at(old(cursor).bytes(), old(cursor).pos()).1,
            match read_u32_at(old(cursor).bytes(), old(cursor).pos()).0 {
                Some(v) => r == Ok::<u32, SshError>(v),
                None => r matches Err(e) && e is InvalidPacket,
            },
    {
        match cursor.read_u32_be() {
            Some(v) => Ok(v),
            None => Err(SshError::InvalidPacket("Failed to read u32".to_string())),
        }
    }

    /// Read an SSH mpint (its raw string bytes).
    pub fn read_mpint(cursor: &mut Cursor) -> (r: SshResult<Vec<u8>>)
        ensures
            final(cursor).bytes() == old(cursor).bytes(),
            final(cursor).pos() == read_string_at(old(cursor).bytes(), old(cursor).pos()).1,
            match read_string_at(old(cursor).bytes(), old(cursor).pos()).0 {
                Some(s) => r matches Ok(v) && v@ == s,
                None => r matches Err(e) && e is InvalidPacket,
            },
    {
        Self::read_string(cursor)
    }
}

/// The magnitude bytes of an unsigned big-endian number (see `mpint_magnitude`).
pub fn mpint_magnitude_of(val: &[u8]) -> (m: Vec<u8>)
    ensures
        m@ == mpint_magnitude(val@),
        m@.len() >= 1,
        m@.len() <= val@.len() || m@.len() == 1,
{
    let n = val.len();
    let mut i: usize = 0;
    assert(val@.subrange(0, n as int) =~= val@);
    while i < n && val[i] == 0
        invariant
            n == val@.len(),
            i <= n,
            forall|j: int| 0 <= j < i ==> val@[j] == 0,
            mpint_magnitude(val@) == mpint_magnitude(val@.subrange(i as int, n as int)),
        decreases n - i,
    {
        proof {
            let rest = val@.subrange(i as int, n as int);
            if rest.len() > 1 {
                assert(rest.drop_first() =~= val@.subrange(i + 1, n as int));
            } else {
                assert(val@.subrange(i + 1, n as int) =~= Seq::<u8>::empty());
            }
        }
        i = i + 1;
    }
    if i == n {
        let mut z = Vec::new();
        z.push(0u8);
        proof {
            assert(val@.subrange(i as int, n as int) =~= Seq::<u8>::empty());
            assert(z@ =~= seq![0u8]);
        }
        z
    } else {
        proof {
            assert(val@.subrange(i as int, n as int)[0] == val@[i as int]);
        }
        vstd::slice::slice_to_vec(vstd::slice::slice_subrange(val, i, n))
    }
}

/// Splits `s` at every `sep`, as `str::split` does.
pub fn split_string(s: &str, sep: char) -> (r: Vec<String>)
    ensures
        r@.map_values(|x: String| x@) == split_chars(s@, sep),
{
    let n = s.unicode_len();
    let mut pieces: Vec<String> = Vec::new();
    let mut start: usize = 0;
    let mut i: usize = 0;
    proof {
        assert(s@.subrange(0, 0) =~= Seq::<char>::empty());
        assert(pieces@.map_values(|x: String| x@) =~= Seq::<Seq<char>>::empty());
        assert(split_chars(Seq::<char>::empty(), sep) =~= seq![Seq::<char>::empty()]);
    }
    while i < n
        invariant
            n == s@.len(),
            start <= i <= n,
            split_chars(s@.subrange(0, i as int), sep) == pieces@.map_values(|x: String| x@).push(
                s@.subrange(start as int, i as int),
            ),
            forall|j: int| start <= j < i ==> s@[j] != sep,
        decreases n - i,
    {
        let c = s.get_char(i);
        proof {
            let pre = s@.subrange(0, i + 1);
            assert(pre.drop_last() =~= s@.subrange(0, i as int));
            assert(pre.last() == c);
        }
        if c == sep {
            let piece = String::from_str(s.substring_char(start, i));
            pieces.push(piece);
            start = i + 1;
            proof {
                assert(s@.subrange(start as int, i + 1) =~= Seq::<char>::empty());
            }
        } else {
            proof {
                assert(s@.subrange(start as int, i + 1) =~= s@.subrange(start as int, i as int).push(
                    c,
                ));
            }
        }
        i = i + 1;
        proof {
            let pv = pieces@.map_values(|x: String| x@);
            assert(split_chars(s@.subrange(0, i as int), sep) =~= pv.push(
                s@.subrange(start as int, i as int),
            ));
        }
    }
    let last = String::from_str(s.substring_char(start, n));
    pieces.push(last);
    proof {
        assert(s@.subrange(0, n as int) =~= s@);
        assert(pieces@.map_values(|x: String| x@) =~= split_chars(s@, sep));
    }
    pieces
}


// ---------------------------------------------------------------------------
// Binary packets
// ---------------------------------------------------------------------------

/// The block size a packet is padded to: the cipher block size, at least 8.
pub open spec fn effective_block_size(block_size: int) -> int {
    if block_size < 8 {
        8
    } else {
        block_size
    }
}

/// The padding length of a packet with `payload_len` payload bytes (after the
/// message type byte): at least four bytes, so that `packet_length` (padding
/// length byte, message type, payload and padding; the length field itself not
/// counted) is a multiple of the block size.
pub open spec fn padding_len_for(payload_len: int, bs: int) -> int {
    let min = 1 + (1 + payload_len) + MIN_PADDING;
    let rem = min % bs;
    if rem == 0 {
        MIN_PADDING as int
    } else {
        MIN_PADDING + (bs - rem)
    }
}

/// The `packet_length` field of such a packet.
pub open spec fn packet_len_for(payload_len: int, bs: int) -> int {
    1 + (1 + payload_len) + padding_len_for(payload_len, bs)
}

/// The wire form of a packet before encryption: length, padding length,
/// message type, payload and padding.
pub open spec fn framed_packet(msg_type: u8, payload: Seq<u8>, padding: Seq<u8>) -> Seq<u8> {
    u32_be((2 + payload.len() + padding.len()) as u32) + seq![padding.len() as u8, msg_type]
        + payload + padding
}

/// Whether `deserialize` accepts the bytes `d`.
pub open spec fn deserialize_accepts(d: Seq<u8>) -> bool {
    &&& d.len() >= 6
    &&& u32_of_be(d) <= MAX_PACKET_SIZE
    &&& d.len() >= 4 + u32_of_be(d)
    &&& (d[4] as int) < u32_of_be(d)
    &&& u32_of_be(d) - 1 - d[4] != 0
}

/// The message with which `deserialize` refuses bytes, by the first check
/// that fails.
pub open spec fn deserialize_error(d: Seq<u8>) -> Seq<char> {
    if d.len() < 6 {
        "Packet too short"@
    } else if u32_of_be(d) > MAX_PACKET_SIZE {
        "Packet length too large: "@ + decimal_text(u32_of_be(d) as u64)
    } else if d.len() < 4 + u32_of_be(d) {
        "Incomplete packet data"@
    } else if (d[4] as int) >= u32_of_be(d) {
        "Invalid padding length"@
    } else {
        "Empty payload"@
    }
}

/// The payload that `deserialize` extracts from accepted bytes.
pub open spec fn deserialized_payload(d: Seq<u8>) -> Seq<u8> {
    d.subrange(6, 4 + u32_of_be(d) - d[4])
}

/// Calls `rand::thread_rng().fill_bytes` (rand): `n` random bytes.
/// Only their number is claimed.
#[verifier::external_body]
pub(crate) fn random_bytes(n: usize) -> (r: Vec<u8>)
    ensures
        r@.len() == n,
{
    let mut v = vec![0u8; n];
    rand::RngCore::fill_bytes(&mut rand::thread_rng(), &mut v);
    v
}

/// A raw SSH packet before/after encryption.
#[derive(Debug, Clone)]
pub struct SshPacket {
    /// The message type byte (first byte of payload).
    pub msg_type: u8,
    /// The payload bytes (excluding the message type byte).
    pub payload: Vec<u8>,
}

impl SshPacket {
    /// Create a new packet with a given message type and payload.
    pub fn new(msg_type: MessageType, payload: Vec<u8>) -> (r: Self)
        ensures
            r.msg_type == msg_type.code(),
            r.payload == payload,
    {
        SshPacket { msg_type: msg_type.to_u8(), payload }
    }

    /// The unencrypted wire form of this packet with the given padding bytes.
    pub fn frame(&self, padding: &[u8]) -> (r: Vec<u8>)
        requires
            padding@.len() <= MAX_PACKET_SIZE,
            self.payload@.len() <= MAX_PACKET_SIZE,
        ensures
            r@ == framed_packet(self.msg_type, self.payload@, padding@),
    {
        let packet_length = 2 + self.payload.len() + padding.len();
        let mut buf: Vec<u8> = Vec::new();
        SshBuf::write_u32(&mut buf, packet_length as u32);
        buf.push(#[verifier::truncate] (padding.len() as u8));
        buf.push(self.msg_type);
        append_bytes(&mut buf, self.payload.as_slice());
        append_bytes(&mut buf, padding);
        assert(buf@ =~= framed_packet(self.msg_type, self.payload@, padding@));
        buf
    }

    /// Serialize the packet into the SSH binary format (unencrypted), padded
    /// with random bytes to a multiple of `block_size` (at least 8).
    pub fn serialize(&self, block_size: usize) -> (r: SshResult<Vec<u8>>)
        requires
            self.payload@.len() + block_size + 14 <= usize::MAX,
        ensures
            ({
                let bs = effective_block_size(block_size as int);
                let n = self.payload@.len() as int;
                &&& (r is Err) <==> packet_len_for(n, bs) > MAX_PACKET_SIZE
                &&& r matches Err(e) ==> (e matches SshError::InvalidPacket(m) && m@ == "Packet too large: "@
                    + decimal_text(packet_len_for(n, bs) as u64) + " bytes"@)
                &&& r matches Ok(v) ==> {
                    &&& v@.len() == 4 + packet_len_for(n, bs)
                    &&& v@ == framed_packet(
                        self.msg_type,
                        self.payload@,
                        v@.subrange(6 + n, v@.len() as int),
                    )
                    &&& v@.len() - (6 + n) == padding_len_for(n, bs)
                }
            }),
    {
        let block_size = if block_size < 8 { 8 } else { block_size };
        let payload_len = 1 + self.payload.len();
        let min_packet_len = 1 + payload_len + MIN_PADDING;
        let remainder = min_packet_len % block_size;
        let padding_len = if remainder == 0 {
            MIN_PADDING
        } else {
            MIN_PADDING + (block_size - remainder)
        };
        let packet_length = 1 + payload_len + padding_len;
        if packet_length > MAX_PACKET_SIZE {
            let mut msg = text_with_number("Packet too large: ", packet_length as u64);
            msg.append(" bytes");
            return Err(SshError::InvalidPacket(msg));
        }
        let padding = random_bytes(padding_len);
        let v = self.frame(padding.as_slice());
        proof {
            let n = self.payload@.len() as int;
            assert(v@.subrange(6 + n, v@.len() as int) =~= padding@);
        }
        Ok(v)
    }

    /// Deserialize an SSH packet from raw (decrypted) bytes, starting with the
    /// packet_length field.
    pub fn deserialize(data: &[u8]) -> (r: SshResult<Self>)
        ensures
            (r is Ok) <==> deserialize_accepts(data@),
            r matches Err(e) ==> (e matches SshError::InvalidPacket(m) && m@ == deserialize_error(data@)),
            r matches Ok(p) ==> p.msg_type == data@[5] && p.payload@ == deserialized_payload(
                data@,
            ),
    {
        if data.len() < 6 {
            return Err(SshError::InvalidPacket("Packet too short".to_string()));
        }
        let mut cursor = Cursor::new(data);
        let packet_length = match cursor.read_u32_be() {
            Some(n) => n as usize,
            None => {
                return Err(SshError::InvalidPacket("Packet too short".to_string()));
            },
        };
        if packet_length > MAX_PACKET_SIZE {
            let msg = text_with_number("Packet length too large: ", packet_length as u64);
            return Err(SshError::InvalidPacket(msg));
        }
        if data.len() < 4 + packet_length {
            return Err(SshError::InvalidPacket("Incomplete packet data".to_string()));
        }
        let padding_length = data[4] as usize;
        if padding_length >= packet_length {
            return Err(SshError::InvalidPacket("Invalid padding length".to_string()));
        }
        let payload_length = packet_length - 1 - padding_length;
        if payload_length == 0 {
            return Err(SshError::InvalidPacket("Empty payload".to_string()));
        }
        let msg_type = data[5];
        let payload = vstd::slice::slice_to_vec(
            vstd::slice::slice_subrange(data, 6, 6 + (payload_length - 1)),
        );
        proof {
            assert(data@.subrange(0, 4)[0] == data@[0]);
        }
        Ok(SshPacket { msg_type, payload })
    }
}

/// Packet lengths come out a multiple of the block size, with at least four
/// and fewer than `bs + 4` bytes of padding.
pub proof fn lemma_packet_alignment(payload_len: int, bs: int)
    requires
        payload_len >= 0,
        bs > 0,
    ensures
        packet_len_for(payload_len, bs) % bs == 0,
        MIN_PADDING <= padding_len_for(payload_len, bs) < bs + MIN_PADDING,
{
    let min = 1 + (1 + payload_len) + MIN_PADDING;
    vstd::arithmetic::div_mod::lemma_fundamental_div_mod(min, bs);
    let q = min / bs;
    let rem = min % bs;
    if rem == 0 {
        vstd::arithmetic::div_mod::lemma_mod_multiples_basic(q, bs);
        assert(q * bs == bs * q) by (nonlinear_arith);
    } else {
        assert(packet_len_for(payload_len, bs) == bs * q + bs);
        assert(bs * q + bs == (q + 1) * bs) by (nonlinear_arith);
        vstd::arithmetic::div_mod::lemma_mod_multiples_basic(q + 1, bs);
    }
}

/// What `frame` writes, `deserialize` reads back: the same message type and
/// payload, whenever the padding fits its one-byte length field.
pub proof fn lemma_frame_deserialize(msg_type: u8, payload: Seq<u8>, padding: Seq<u8>)
    requires
        padding.len() <= 255,
        2 + payload.len() + padding.len() <= MAX_PACKET_SIZE,
    ensures
        deserialize_accepts(framed_packet(msg_type, payload, padding)),
        framed_packet(msg_type, payload, padding)[5] == msg_type,
        deserialized_payload(framed_packet(msg_type, payload, padding)) == payload,
{
    let d = framed_packet(msg_type, payload, padding);
    let pl = (2 + payload.len() + padding.len()) as u32;
    lemma_u32_be_roundtrip(pl);
    assert(d.subrange(0, 4) =~= u32_be(pl));
    assert(u32_of_be(d) == u32_of_be(d.subrange(0, 4)));
    assert(d[4] == padding.len() as u8);
    assert(d.subrange(6, 6 + payload.len() as int) =~= payload);
}

/// Serializing a packet and deserializing the result gives back the message
/// type and payload, for block sizes whose padding fits in one byte.
pub proof fn lemma_serialize_deserialize(
    msg_type: u8,
    payload: Seq<u8>,
    block_size: int,
    padding: Seq<u8>,
)
    requires
        effective_block_size(block_size) <= 252,
        padding.len() == padding_len_for(payload.len() as int, effective_block_size(block_size)),
        packet_len_for(payload.len() as int, effective_block_size(block_size)) <= MAX_PACKET_SIZE,
    ensures
        deserialize_accepts(framed_packet(msg_type, payload, padding)),
        framed_packet(msg_type, payload, padding)[5] == msg_type,
        deserialized_payload(framed_packet(msg_type, payload, padding)) == payload,
{
    lemma_packet_alignment(payload.len() as int, effective_block_size(block_size));
    lemma_frame_deserialize(msg_type, payload, padding);
}


/// UTF-8 takes at most four bytes per character.
pub proof fn lemma_encode_utf8_len(s: Seq<char>)
    ensures
        encode_utf8(s).len() <= 4 * s.len(),
    decreases s.len(),
{
    if s.len() > 0 {
        lemma_encode_utf8_len(s.drop_first());
    }
}

/// A written SSH string reads back.
pub proof fn lemma_string_roundtrip(data: Seq<u8>)
    requires
        data.len() <= MAX_PACKET_SIZE,
    ensures
        read_string_at(ssh_string(data), 0) == (Some(data), ssh_string(data).len() as int),
{
    let d = ssh_string(data);
    assert(d.subrange(0, 4 + data.len() as int) =~= d);
    lemma_read_string_of(d, 0, data);
}

/// A written UTF-8 string reads back.
pub proof fn lemma_utf8_roundtrip(s: Seq<char>)
    requires
        encode_utf8(s).len() <= MAX_PACKET_SIZE,
    ensures
        read_utf8_at(ssh_utf8(s), 0) == (Some(s), ssh_utf8(s).len() as int),
{
    lemma_string_roundtrip(encode_utf8(s));
}

/// A written uint32 reads back.
pub proof fn lemma_u32_roundtrip(v: u32)
    ensures
        read_u32_at(u32_be(v), 0) == (Some(v), 4int),
{
    lemma_u32_be_roundtrip(v);
    assert(u32_be(v).subrange(0, 4) =~= u32_be(v));
    lemma_read_u32_of(u32_be(v), 0, v);
}

/// A written name-list reads back wherever it stands in the buffer, when no
/// name holds a comma (the list of one empty name reads back as the empty
/// list), and the read stops right after it.
pub proof fn lemma_name_list_roundtrip(names: Seq<Seq<char>>, prefix: Seq<u8>, rest: Seq<u8>)
    requires
        forall|i: int| 0 <= i < names.len() ==> no_sep(#[trigger] names[i], ','),
        !(names.len() == 1 && names[0].len() == 0),
        encode_utf8(join_chars(names, ',')).len() <= MAX_PACKET_SIZE,
    ensures
        read_name_list_at(prefix + ssh_name_list(names) + rest, prefix.len() as int) == (
            Some(names),
            (prefix.len() + ssh_name_list(names).len()) as int,
        ),
{
    let j = join_chars(names, ',');
    let d = prefix + ssh_name_list(names) + rest;
    let p = prefix.len() as int;
    let e = ssh_name_list(names);
    assert(e.len() == 4 + encode_utf8(j).len());
    assert(d.subrange(p, p + e.len()) =~= e);
    lemma_read_utf8_of(d, p, j);
    if names.len() == 0 {
        assert(names =~= Seq::<Seq<char>>::empty());
    } else {
        if names.len() >= 2 {
            lemma_join_len(names, ',');
        }
        lemma_split_join(names, ',');
    }
}

proof fn lemma_join_len(names: Seq<Seq<char>>, sep: char)
    requires
        names.len() >= 2,
    ensures
        join_chars(names, sep).len() >= 1,
{
}


/// Whether two strings hold the same characters.
pub fn text_eq(a: &str, b: &str) -> (r: bool)
    ensures
        r == (a@ == b@),
{
    let r = bytes_eq(a.as_bytes(), b.as_bytes());
    proof {
        if r {
            assert(decode_utf8(encode_utf8(a@)) == decode_utf8(encode_utf8(b@)));
        }
    }
    r
}

} // verus!
