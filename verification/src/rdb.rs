//! The binary snapshot format: a fixed header, zero or more records —
//! age in seconds (big-endian 64-bit), expiry in milliseconds (big-endian
//! 32-bit), then NUL-terminated key and value bytes — and a trailing
//! end-of-file marker. Records are read until fewer than eight bytes
//! remain; whatever follows the marker is ignored.

use vstd::prelude::*;

verus! {

/// One record as it stands in the file: raw key and value bytes, the
/// age of the entry in seconds at save time, and its expiry in
/// milliseconds.
pub struct Record {
    pub key: Vec<u8>,
    pub value: Vec<u8>,
    pub age_secs: u64,
    pub expires: u32,
}

/// The mathematical content of a `Record`.
pub ghost struct RecordV {
    pub key: Seq<u8>,
    pub value: Seq<u8>,
    pub age_secs: u64,
    pub expires: u32,
}

impl View for Record {
    type V = RecordV;

    open spec fn view(&self) -> RecordV {
        RecordV {
            key: self.key@,
            value: self.value@,
            age_secs: self.age_secs,
            expires: self.expires,
        }
    }
}

/// Why a snapshot fails to parse: the bytes end where more were owed, or
/// a header or marker does not match.
pub enum RdbError {
    Truncated,
    BadFormat,
}

/// The five magic bytes `REDIS`.
pub open spec fn spec_magic() -> Seq<u8> {
    seq![82u8, 69u8, 68u8, 73u8, 83u8]
}

/// The four version bytes `0006`.
pub open spec fn spec_version() -> Seq<u8> {
    seq![48u8, 48u8, 48u8, 54u8]
}

/// The three trailer bytes `EOF`.
pub open spec fn spec_eof_marker() -> Seq<u8> {
    seq![69u8, 79u8, 70u8]
}

/// A 64-bit number as eight big-endian bytes.
pub open spec fn spec_u64_be_bytes(x: u64) -> Seq<u8> {
    seq![
        (x >> 56) as u8,
        (x >> 48) as u8,
        (x >> 40) as u8,
        (x >> 32) as u8,
        (x >> 24) as u8,
        (x >> 16) as u8,
        (x >> 8) as u8,
        x as u8,
    ]
}

/// The number eight big-endian bytes hold.
pub open spec fn spec_u64_of_be(b: Seq<u8>) -> u64 {
    (((b[0] as u64) << 56) | ((b[1] as u64) << 48) | ((b[2] as u64) << 40) | ((b[3] as u64) << 32)
        | ((b[4] as u64) << 24) | ((b[5] as u64) << 16) | ((b[6] as u64) << 8) | (b[7] as u64))
}

/// A 32-bit number as four big-endian bytes.
pub open spec fn spec_u32_be_bytes(x: u32) -> Seq<u8> {
    seq![(x >> 24) as u8, (x >> 16) as u8, (x >> 8) as u8, x as u8]
}

/// The number four big-endian bytes hold.
pub open spec fn spec_u32_of_be(b: Seq<u8>) -> u32 {
    (((b[0] as u32) << 24) | ((b[1] as u32) << 16) | ((b[2] as u32) << 8) | (b[3] as u32))
}

/// Eight big-endian bytes read back as the number they were made from.
pub proof fn lemma_u64_be_round_trip(x: u64)
    ensures
        spec_u64_of_be(spec_u64_be_bytes(x)) == x,
{
    assert((((((x >> 56) as u8) as u64) << 56) | ((((x >> 48) as u8) as u64) << 48) | ((((x >> 40)
        as u8) as u64) << 40) | ((((x >> 32) as u8) as u64) << 32) | ((((x >> 24) as u8) as u64)
        << 24) | ((((x >> 16) as u8) as u64) << 16) | ((((x >> 8) as u8) as u64) << 8) | ((x as u8)
        as u64)) == x) by (bit_vector);
}

/// Four big-endian bytes read back as the number they were made from.
pub proof fn lemma_u32_be_round_trip(x: u32)
    ensures
        spec_u32_of_be(spec_u32_be_bytes(x)) == x,
{
    assert((((((x >> 24) as u8) as u32) << 24) | ((((x >> 16) as u8) as u32) << 16) | ((((x >> 8)
        as u8) as u32) << 8) | ((x as u8) as u32)) == x) by (bit_vector);
}

/// The index of the first NUL byte, or -1 when there is none.
pub open spec fn nul_pos(b: Seq<u8>) -> int
    decreases b.len(),
{
    if b.len() == 0 {
        -1
    } else if b[0] == 0 {
        0
    } else if nul_pos(b.drop_first()) == -1 {
        -1
    } else {
        nul_pos(b.drop_first()) + 1
    }
}

/// What `nul_pos` finds: a first NUL, or none at all.
pub proof fn lemma_nul_pos(b: Seq<u8>)
    ensures
        -1 <= nul_pos(b) < b.len(),
        nul_pos(b) >= 0 ==> b[nul_pos(b)] == 0 && (forall|j: int|
            0 <= j < nul_pos(b) ==> b[j] != 0),
        nul_pos(b) == -1 ==> forall|j: int| 0 <= j < b.len() ==> b[j] != 0,
    decreases b.len(),
{
    if b.len() > 0 && b[0] != 0 {
        lemma_nul_pos(b.drop_first());
        let df = b.drop_first();
        if nul_pos(b) >= 0 {
            assert(b[nul_pos(b)] == df[nul_pos(b) - 1]);
            assert forall|j: int| 0 <= j < nul_pos(b) implies b[j] != 0 by {
                if j > 0 {
                    assert(b[j] == df[j - 1]);
                }
            }
        } else {
            assert forall|j: int| 0 <= j < b.len() implies b[j] != 0 by {
                if j > 0 {
                    assert(b[j] == df[j - 1]);
                }
            }
        }
    }
}

/// A NUL at `i` behind none earlier pins `nul_pos` down.
pub proof fn lemma_nul_pos_found(b: Seq<u8>, i: int)
    requires
        0 <= i < b.len(),
        b[i] == 0,
        forall|j: int| 0 <= j < i ==> b[j] != 0,
    ensures
        nul_pos(b) == i,
    decreases i,
{
    if i > 0 {
        assert(forall|j: int| 0 <= j < b.drop_first().len() ==> b.drop_first()[j] == b[j + 1]);
        lemma_nul_pos_found(b.drop_first(), i - 1);
    }
}

/// The bytes a NUL-terminated field read yields: up to the first NUL, or,
/// with no NUL, everything but a trailing byte that the terminator strip
/// removes anyway.
pub open spec fn scan_field(b: Seq<u8>) -> Seq<u8> {
    if nul_pos(b) >= 0 {
        b.take(nul_pos(b))
    } else if b.len() == 0 {
        b
    } else {
        b.drop_last()
    }
}

/// How many bytes that field read consumes.
pub open spec fn scan_used(b: Seq<u8>) -> int {
    if nul_pos(b) >= 0 {
        nul_pos(b) + 1
    } else {
        b.len() as int
    }
}

/// The records of a byte stream, read until fewer than eight bytes
/// remain, at which point the trailer must begin with `EOF`.
pub open spec fn spec_parse_records(b: Seq<u8>) -> Result<Seq<RecordV>, RdbError>
    decreases b.len(),
    via spec_parse_records_decreases
{
    if b.len() < 8 {
        if b.len() < 3 {
            Err(RdbError::Truncated)
        } else if b.subrange(0, 3) == spec_eof_marker() {
            Ok(Seq::empty())
        } else {
            Err(RdbError::BadFormat)
        }
    } else if b.len() < 12 {
        Err(RdbError::Truncated)
    } else {
        let age_secs = spec_u64_of_be(b.subrange(0, 8));
        let expires = spec_u32_of_be(b.subrange(8, 12));
        let r1 = b.skip(12);
        let key = scan_field(r1);
        let r2 = r1.skip(scan_used(r1));
        let value = scan_field(r2);
        let r3 = r2.skip(scan_used(r2));
        match spec_parse_records(r3) {
            Ok(rest) => Ok(seq![RecordV { key, value, age_secs, expires }] + rest),
            Err(e) => Err(e),
        }
    }
}

#[via_fn]
proof fn spec_parse_records_decreases(b: Seq<u8>) {
    if b.len() >= 12 {
        let r1 = b.skip(12);
        lemma_nul_pos(r1);
        let r2 = r1.skip(scan_used(r1));
        lemma_nul_pos(r2);
    }
}

/// The parse of a whole snapshot: magic bytes, version bytes, records.
pub open spec fn spec_parse(b: Seq<u8>) -> Result<Seq<RecordV>, RdbError> {
    if b.len() < 5 {
        Err(RdbError::Truncated)
    } else if b.subrange(0, 5) != spec_magic() {
        Err(RdbError::BadFormat)
    } else if b.len() < 9 {
        Err(RdbError::Truncated)
    } else if b.subrange(5, 9) != spec_version() {
        Err(RdbError::BadFormat)
    } else {
        spec_parse_records(b.skip(9))
    }
}

/// One record in its wire form.
pub open spec fn spec_encode_record(r: RecordV) -> Seq<u8> {
    spec_u64_be_bytes(r.age_secs) + spec_u32_be_bytes(r.expires) + r.key + seq![0u8] + r.value
        + seq![0u8]
}

/// All records, in order.
pub open spec fn spec_encode_records(rs: Seq<RecordV>) -> Seq<u8>
    decreases rs.len(),
{
    if rs.len() == 0 {
        Seq::empty()
    } else {
        spec_encode_record(rs[0]) + spec_encode_records(rs.drop_first())
    }
}

/// A whole snapshot: header, records, trailer.
pub open spec fn spec_encode(rs: Seq<RecordV>) -> Seq<u8> {
    spec_magic() + spec_version() + spec_encode_records(rs) + spec_eof_marker()
}

/// Appending a record appends its wire form.
pub proof fn lemma_encode_records_push(rs: Seq<RecordV>, r: RecordV)
    ensures
        spec_encode_records(rs.push(r)) == spec_encode_records(rs) + spec_encode_record(r),
    decreases rs.len(),
{
    if rs.len() == 0 {
        assert(rs.push(r).drop_first() =~= Seq::<RecordV>::empty());
        assert(rs.push(r)[0] == r);
        assert(spec_encode_records(Seq::<RecordV>::empty()) == Seq::<u8>::empty());
        assert(spec_encode_records(rs.push(r)) =~= spec_encode_records(rs) + spec_encode_record(
            r,
        ));
    } else {
        assert(rs.push(r).drop_first() =~= rs.drop_first().push(r));
        assert(rs.push(r)[0] == rs[0]);
        lemma_encode_records_push(rs.drop_first(), r);
        assert(spec_encode_records(rs.push(r)) =~= spec_encode_records(rs) + spec_encode_record(
            r,
        ));
    }
}

/// The eight big-endian bytes of a 64-bit number.
fn u64_be_bytes(x: u64) -> (r: Vec<u8>)
    ensures
        r@ == spec_u64_be_bytes(x),
{
    let mut r: Vec<u8> = Vec::new();
    r.push(#[verifier::truncate] ((x >> 56) as u8));
    r.push(#[verifier::truncate] ((x >> 48) as u8));
    r.push(#[verifier::truncate] ((x >> 40) as u8));
    r.push(#[verifier::truncate] ((x >> 32) as u8));
    r.push(#[verifier::truncate] ((x >> 24) as u8));
    r.push(#[verifier::truncate] ((x >> 16) as u8));
    r.push(#[verifier::truncate] ((x >> 8) as u8));
    r.push(#[verifier::truncate] (x as u8));
    proof {
        assert(r@ =~= spec_u64_be_bytes(x));
    }
    r
}

/// The four big-endian bytes of a 32-bit number.
fn u32_be_bytes(x: u32) -> (r: Vec<u8>)
    ensures
        r@ == spec_u32_be_bytes(x),
{
    let mut r: Vec<u8> = Vec::new();
    r.push(#[verifier::truncate] ((x >> 24) as u8));
    r.push(#[verifier::truncate] ((x >> 16) as u8));
    r.push(#[verifier::truncate] ((x >> 8) as u8));
    r.push(#[verifier::truncate] (x as u8));
    proof {
        assert(r@ =~= spec_u32_be_bytes(x));
    }
    r
}

/// Serializes records into a whole snapshot.
pub fn encode_records(records: &Vec<Record>) -> (out: Vec<u8>)
    ensures
        out@ == spec_encode(records@.map_values(|r: Record| r@)),
{
    let ghost rviews = records@.map_values(|r: Record| r@);
    let mut out: Vec<u8> = Vec::new();
    out.push(82u8);
    out.push(69u8);
    out.push(68u8);
    out.push(73u8);
    out.push(83u8);
    out.push(48u8);
    out.push(48u8);
    out.push(48u8);
    out.push(54u8);
    proof {
        assert(out@ =~= spec_magic() + spec_version());
        assert(rviews.take(0) =~= Seq::<RecordV>::empty());
        assert(spec_encode_records(rviews.take(0)) == Seq::<u8>::empty());
        assert(out@ =~= spec_magic() + spec_version() + spec_encode_records(rviews.take(0)));
    }
    let mut i: usize = 0;
    while i < records.len()
        invariant
            i <= records@.len(),
            rviews == records@.map_values(|r: Record| r@),
            out@ == spec_magic() + spec_version() + spec_encode_records(rviews.take(i as int)),
        decreases records@.len() - i,
    {
        let age = u64_be_bytes(records[i].age_secs);
        out.extend_from_slice(age.as_slice());
        let exp = u32_be_bytes(records[i].expires);
        out.extend_from_slice(exp.as_slice());
        out.extend_from_slice(records[i].key.as_slice());
        out.push(0u8);
        out.extend_from_slice(records[i].value.as_slice());
        out.push(0u8);
        proof {
            assert(rviews.take(i + 1) =~= rviews.take(i as int).push(rviews[i as int]));
            lemma_encode_records_push(rviews.take(i as int), rviews[i as int]);
            assert(out@ =~= spec_magic() + spec_version() + spec_encode_records(rviews.take(i + 1)));
        }
        i = i + 1;
    }
    out.push(69u8);
    out.push(79u8);
    out.push(70u8);
    proof {
        assert(rviews.take(records@.len() as int) =~= rviews);
        assert(out@ =~= spec_encode(rviews));
    }
    out
}

/// A record survives the NUL-terminated layout when neither its key nor
/// its value contains a NUL byte.
pub open spec fn record_wf(r: RecordV) -> bool {
    !r.key.contains(0u8) && !r.value.contains(0u8)
}

/// Round trip of the record stream: parsing what was encoded yields the
/// records that were written, provided no key or value contains a NUL
/// byte.
#[verifier::rlimit(60)]
pub proof fn lemma_parse_encode_records(rs: Seq<RecordV>)
    requires
        forall|i: int| 0 <= i < rs.len() ==> record_wf(#[trigger] rs[i]),
    ensures
        spec_parse_records(spec_encode_records(rs) + spec_eof_marker()) == Ok::<
            Seq<RecordV>,
            RdbError,
        >(rs),
    decreases rs.len(),
{
    let b = spec_encode_records(rs) + spec_eof_marker();
    if rs.len() == 0 {
        assert(spec_encode_records(rs) == Seq::<u8>::empty());
        assert(b =~= spec_eof_marker());
        assert(b.subrange(0, 3) =~= spec_eof_marker());
        assert(spec_parse_records(b) == Ok::<Seq<RecordV>, RdbError>(Seq::empty()));
        assert(rs =~= Seq::<RecordV>::empty());
    } else {
        let r0 = rs[0];
        let rest_bytes = spec_encode_records(rs.drop_first()) + spec_eof_marker();
        assert(b =~= spec_encode_record(r0) + rest_bytes);
        assert(b.len() >= 14 + 3);
        assert(b.subrange(0, 8) =~= spec_u64_be_bytes(r0.age_secs));
        lemma_u64_be_round_trip(r0.age_secs);
        assert(b.subrange(8, 12) =~= spec_u32_be_bytes(r0.expires));
        lemma_u32_be_round_trip(r0.expires);
        let r1 = b.skip(12);
        assert(r1 =~= r0.key + seq![0u8] + r0.value + seq![0u8] + rest_bytes);
        let klen = r0.key.len() as int;
        assert(r1[klen] == 0);
        assert forall|j: int| 0 <= j < klen implies r1[j] != 0 by {
            assert(r1[j] == r0.key[j]);
            if r1[j] == 0 {
                assert(r0.key.contains(0u8));
            }
        }
        lemma_nul_pos_found(r1, klen);
        assert(scan_field(r1) =~= r0.key);
        let r2 = r1.skip(scan_used(r1));
        assert(r2 =~= r0.value + seq![0u8] + rest_bytes);
        let vlen = r0.value.len() as int;
        assert(r2[vlen] == 0);
        assert forall|j: int| 0 <= j < vlen implies r2[j] != 0 by {
            assert(r2[j] == r0.value[j]);
            if r2[j] == 0 {
                assert(r0.value.contains(0u8));
            }
        }
        lemma_nul_pos_found(r2, vlen);
        assert(scan_field(r2) =~= r0.value);
        let r3 = r2.skip(scan_used(r2));
        assert(r3 =~= rest_bytes);
        assert(forall|i: int|
            0 <= i < rs.drop_first().len() ==> rs.drop_first()[i] == rs[i + 1]);
        lemma_parse_encode_records(rs.drop_first());
        let rec = RecordV {
            key: scan_field(r1),
            value: scan_field(r2),
            age_secs: spec_u64_of_be(b.subrange(0, 8)),
            expires: spec_u32_of_be(b.subrange(8, 12)),
        };
        assert(rec == r0);
        assert(spec_parse_records(b) == Ok::<Seq<RecordV>, RdbError>(seq![r0] + rs.drop_first()));
        assert(seq![r0] + rs.drop_first() =~= rs);
    }
}

/// Round trip of a whole snapshot.
pub proof fn lemma_parse_encode(rs: Seq<RecordV>)
    requires
        forall|i: int| 0 <= i < rs.len() ==> record_wf(#[trigger] rs[i]),
    ensures
        spec_parse(spec_encode(rs)) == Ok::<Seq<RecordV>, RdbError>(rs),
{
    let b = spec_encode(rs);
    assert(b.subrange(0, 5) =~= spec_magic());
    assert(b.subrange(5, 9) =~= spec_version());
    assert(b.skip(9) =~= spec_encode_records(rs) + spec_eof_marker());
    lemma_parse_encode_records(rs);
}

/// Reads eight big-endian bytes at `pos`.
fn u64_from_be(bytes: &Vec<u8>, pos: usize) -> (r: u64)
    requires
        pos + 8 <= bytes@.len(),
    ensures
        r == spec_u64_of_be(bytes@.subrange(pos as int, pos + 8)),
{
    let n = bytes.len();
    proof {
        let sub = bytes@.subrange(pos as int, pos + 8);
        assert(sub[0] == bytes@[pos as int]);
        assert(sub[1] == bytes@[pos + 1]);
        assert(sub[2] == bytes@[pos + 2]);
        assert(sub[3] == bytes@[pos + 3]);
        assert(sub[4] == bytes@[pos + 4]);
        assert(sub[5] == bytes@[pos + 5]);
        assert(sub[6] == bytes@[pos + 6]);
        assert(sub[7] == bytes@[pos + 7]);
    }
    ((bytes[pos] as u64) << 56) | ((bytes[pos + 1] as u64) << 48) | ((bytes[pos + 2] as u64) << 40)
        | ((bytes[pos + 3] as u64) << 32) | ((bytes[pos + 4] as u64) << 24) | ((bytes[pos + 5]
        as u64) << 16) | ((bytes[pos + 6] as u64) << 8) | (bytes[pos + 7] as u64)
}

/// Reads four big-endian bytes at `pos`.
fn u32_from_be(bytes: &Vec<u8>, pos: usize) -> (r: u32)
    requires
        pos + 4 <= bytes@.len(),
    ensures
        r == spec_u32_of_be(bytes@.subrange(pos as int, pos + 4)),
{
    let n = bytes.len();
    proof {
        let sub = bytes@.subrange(pos as int, pos + 4);
        assert(sub[0] == bytes@[pos as int]);
        assert(sub[1] == bytes@[pos + 1]);
        assert(sub[2] == bytes@[pos + 2]);
        assert(sub[3] == bytes@[pos + 3]);
    }
    ((bytes[pos] as u32) << 24) | ((bytes[pos + 1] as u32) << 16) | ((bytes[pos + 2] as u32) << 8)
        | (bytes[pos + 3] as u32)
}

/// Copies the bytes in `[from, to)`.
fn copy_range(bytes: &Vec<u8>, from: usize, to: usize) -> (out: Vec<u8>)
    requires
        from <= to <= bytes@.len(),
    ensures
        out@ == bytes@.subrange(from as int, to as int),
{
    let mut out: Vec<u8> = Vec::new();
    let mut k = from;
    while k < to
        invariant
            from <= k <= to <= bytes@.len(),
            out@ == bytes@.subrange(from as int, k as int),
        decreases to - k,
    {
        out.push(bytes[k]);
        proof {
            assert(bytes@.subrange(from as int, k + 1) =~= bytes@.subrange(
                from as int,
                k as int,
            ).push(bytes@[k as int]));
        }
        k = k + 1;
    }
    out
}

/// Reads one NUL-terminated field starting at `start`: the field bytes
/// and the position just past what the read consumed.
fn scan_field_exec(bytes: &Vec<u8>, start: usize) -> (r: (Vec<u8>, usize))
    requires
        start <= bytes@.len(),
    ensures
        ({
            let b = bytes@.skip(start as int);
            &&& r.0@ == scan_field(b)
            &&& r.1 == start + scan_used(b)
            &&& start <= r.1 <= bytes@.len()
        }),
{
    let ghost b = bytes@.skip(start as int);
    proof {
        assert(forall|k: int| 0 <= k < b.len() ==> b[k] == bytes@[start + k]);
    }
    let mut j = start;
    while j < bytes.len() && bytes[j] != 0
        invariant
            start <= j <= bytes@.len(),
            b == bytes@.skip(start as int),
            forall|k: int| start <= k < j ==> bytes@[k] != 0,
        decreases bytes@.len() - j,
    {
        j = j + 1;
    }
    if j < bytes.len() {
        proof {
            assert(b[j - start] == 0);
            assert(forall|k: int| 0 <= k < j - start ==> b[k] != 0);
            lemma_nul_pos_found(b, j - start);
        }
        let field = copy_range(bytes, start, j);
        proof {
            assert(field@ =~= b.take(nul_pos(b)));
        }
        (field, j + 1)
    } else {
        proof {
            lemma_nul_pos(b);
            if nul_pos(b) >= 0 {
                assert(b[nul_pos(b)] == 0);
                assert(bytes@[start + nul_pos(b)] != 0);
            }
            assert(nul_pos(b) == -1);
        }
        if bytes.len() == start {
            let field: Vec<u8> = Vec::new();
            proof {
                assert(b =~= Seq::<u8>::empty());
                assert(field@ =~= scan_field(b));
            }
            (field, start)
        } else {
            let field = copy_range(bytes, start, bytes.len() - 1);
            proof {
                assert(field@ =~= b.drop_last());
            }
            (field, bytes.len())
        }
    }
}

/// Parses a whole snapshot into its records, reporting exactly where the
/// bytes fall short of the format.
pub fn parse(bytes: &Vec<u8>) -> (r: Result<Vec<Record>, RdbError>)
    ensures
        match (r, spec_parse(bytes@)) {
            (Ok(recs), Ok(specs)) => recs@.map_values(|x: Record| x@) == specs,
            (Err(e1), Err(e2)) => e1 == e2,
            _ => false,
        },
{
    if bytes.len() < 5 {
        return Err(RdbError::Truncated);
    }
    if !(bytes[0] == 82 && bytes[1] == 69 && bytes[2] == 68 && bytes[3] == 73 && bytes[4] == 83) {
        proof {
            let sub = bytes@.subrange(0, 5);
            assert(sub[0] == bytes@[0] && sub[1] == bytes@[1] && sub[2] == bytes@[2] && sub[3]
                == bytes@[3] && sub[4] == bytes@[4]);
            assert(sub != spec_magic());
        }
        return Err(RdbError::BadFormat);
    }
    proof {
        assert(bytes@.subrange(0, 5) =~= spec_magic());
    }
    if bytes.len() < 9 {
        return Err(RdbError::Truncated);
    }
    if !(bytes[5] == 48 && bytes[6] == 48 && bytes[7] == 48 && bytes[8] == 54) {
        proof {
            let sub = bytes@.subrange(5, 9);
            assert(sub[0] == bytes@[5] && sub[1] == bytes@[6] && sub[2] == bytes@[7] && sub[3]
                == bytes@[8]);
            assert(sub != spec_version());
        }
        return Err(RdbError::BadFormat);
    }
    proof {
        assert(bytes@.subrange(5, 9) =~= spec_version());
    }
    let mut pos: usize = 9;
    let mut recs: Vec<Record> = Vec::new();
    proof {
        assert(recs@.map_values(|x: Record| x@) =~= Seq::<RecordV>::empty());
    }
    while bytes.len() - pos >= 8
        invariant
            9 <= pos <= bytes@.len(),
            spec_parse(bytes@) == spec_parse_records(bytes@.skip(9)),
            spec_parse_records(bytes@.skip(9)) == (match spec_parse_records(
                bytes@.skip(pos as int),
            ) {
                Ok(rest) => Ok::<Seq<RecordV>, RdbError>(
                    recs@.map_values(|x: Record| x@) + rest,
                ),
                Err(e) => Err::<Seq<RecordV>, RdbError>(e),
            }),
        decreases bytes@.len() - pos,
    {
        let ghost cur = bytes@.skip(pos as int);
        proof {
            assert(forall|k: int| 0 <= k < cur.len() ==> cur[k] == bytes@[pos + k]);
        }
        if bytes.len() - pos < 12 {
            return Err(RdbError::Truncated);
        }
        let age_secs = u64_from_be(bytes, pos);
        let expires = u32_from_be(bytes, pos + 8);
        proof {
            assert(cur.subrange(0, 8) =~= bytes@.subrange(pos as int, pos + 8));
            assert(cur.subrange(8, 12) =~= bytes@.subrange(pos + 8, pos + 12));
            assert(cur.skip(12) =~= bytes@.skip(pos + 12));
        }
        let (key, next1) = scan_field_exec(bytes, pos + 12);
        proof {
            assert(bytes@.skip(next1 as int) =~= bytes@.skip(pos + 12).skip(scan_used(
                bytes@.skip(pos + 12),
            )));
        }
        let (value, next2) = scan_field_exec(bytes, next1);
        proof {
            assert(bytes@.skip(next2 as int) =~= bytes@.skip(next1 as int).skip(scan_used(
                bytes@.skip(next1 as int),
            )));
        }
        let ghost prev = recs@;
        recs.push(Record { key, value, age_secs, expires });
        proof {
            let rec = RecordV {
                key: scan_field(bytes@.skip(pos + 12)),
                value: scan_field(bytes@.skip(next1 as int)),
                age_secs,
                expires,
            };
            assert(spec_parse_records(cur) == (match spec_parse_records(bytes@.skip(next2 as int)) {
                Ok(rest) => Ok::<Seq<RecordV>, RdbError>(seq![rec] + rest),
                Err(e) => Err::<Seq<RecordV>, RdbError>(e),
            }));
            assert(recs@.map_values(|x: Record| x@) =~= prev.map_values(|x: Record| x@).push(rec));
            if spec_parse_records(bytes@.skip(next2 as int)) is Ok {
                let rest = spec_parse_records(bytes@.skip(next2 as int))->Ok_0;
                assert(prev.map_values(|x: Record| x@) + (seq![rec] + rest) =~= recs@.map_values(
                    |x: Record| x@,
                ) + rest);
            }
        }
        pos = next2;
    }
    let ghost cur = bytes@.skip(pos as int);
    proof {
        assert(forall|k: int| 0 <= k < cur.len() ==> cur[k] == bytes@[pos + k]);
    }
    if bytes.len() - pos < 3 {
        return Err(RdbError::Truncated);
    }
    if bytes[pos] == 69 && bytes[pos + 1] == 79 && bytes[pos + 2] == 70 {
        proof {
            assert(cur.subrange(0, 3) =~= spec_eof_marker());
            assert(recs@.map_values(|x: Record| x@) + Seq::<RecordV>::empty() =~= recs@.map_values(
                |x: Record| x@,
            ));
        }
        Ok(recs)
    } else {
        proof {
            let sub = cur.subrange(0, 3);
            assert(sub[0] == cur[0] && sub[1] == cur[1] && sub[2] == cur[2]);
            assert(sub != spec_eof_marker());
        }
        Err(RdbError::BadFormat)
    }
}

} // verus!
