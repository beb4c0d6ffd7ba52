//! Known-answer-test vector files: a line-oriented `Name = Value` format,
//! fields grouped into records separated by blank lines, every field
//! hex-encoded except the decimal `Count`. The parser decodes each record
//! into a test vector; a file that yields no records at all is an error,
//! never a vacuous success.

use vstd::prelude::*;

verus! {

/// One known-answer record: key and nonce are always exactly 16 bytes,
/// short hex fields are zero-padded and long ones truncated to that length.
#[derive(Debug, Clone)]
pub struct TestVector {
    pub count: u32,
    pub key: Vec<u8>,
    pub nonce: Vec<u8>,
    pub plaintext: Vec<u8>,
    pub associated_data: Vec<u8>,
    pub ciphertext: Vec<u8>,
}

/// Well-formedness of a parsed record: the fixed-size fields have their
/// fixed sizes.
pub open spec fn tv_wf(tv: TestVector) -> bool {
    tv.key@.len() == 16 && tv.nonce@.len() == 16
}

/// The mathematical content of one record: what a `TestVector` stands for.
pub struct SpecRecord {
    pub count: nat,
    pub key: Seq<u8>,
    pub nonce: Seq<u8>,
    pub plaintext: Seq<u8>,
    pub associated_data: Seq<u8>,
    pub ciphertext: Seq<u8>,
}

impl View for TestVector {
    type V = SpecRecord;

    open spec fn view(&self) -> SpecRecord {
        SpecRecord {
            count: self.count as nat,
            key: self.key@,
            nonce: self.nonce@,
            plaintext: self.plaintext@,
            associated_data: self.associated_data@,
            ciphertext: self.ciphertext@,
        }
    }
}

/// Why a vector file was rejected.
#[derive(Debug, Clone, Copy, PartialEq, Eq, Structural)]
pub enum KatError {
    /// A non-blank line without the ` = ` separator.
    MalformedLine,
    /// A record ended without one of the six required fields.
    MissingField,
    /// A field value that does not decode (bad hex, or a bad count).
    BadField,
    /// The file yielded no records at all.
    NoRecords,
}

/// A hexadecimal digit, in either case.
pub open spec fn is_hex_digit(b: u8) -> bool {
    (48 <= b <= 57) || (65 <= b <= 70) || (97 <= b <= 102)
}

/// The value of a hexadecimal digit.
pub open spec fn hex_digit_val(b: u8) -> u8 {
    if 48 <= b <= 57 {
        (b - 48) as u8
    } else if 65 <= b <= 70 {
        (b - 55) as u8
    } else {
        (b - 87) as u8
    }
}

/// A well-formed hex field: an even number of hex digits.
pub open spec fn hex_ok(s: Seq<u8>) -> bool {
    s.len() % 2 == 0 && forall|i: int| 0 <= i < s.len() ==> is_hex_digit(#[trigger] s[i])
}

/// The bytes a well-formed hex field encodes, two digits per byte, high
/// digit first.
pub open spec fn hex_bytes(s: Seq<u8>) -> Seq<u8> {
    Seq::new(
        (s.len() / 2) as nat,
        |i: int| (hex_digit_val(s[2 * i]) * 16 + hex_digit_val(s[2 * i + 1])) as u8,
    )
}

/// The value of one hex digit, or `None` for any other byte.
fn hex_val(b: u8) -> (r: Option<u8>)
    ensures
        r is Some <==> is_hex_digit(b),
        r matches Some(v) ==> v == hex_digit_val(b),
{
    if 48 <= b && b <= 57 {
        Some(b - 48)
    } else if 65 <= b && b <= 70 {
        Some(b - 55)
    } else if 97 <= b && b <= 102 {
        Some(b - 87)
    } else {
        None
    }
}

/// Decodes a hex field; `None` exactly when the field has an odd length or
/// a byte that is no hex digit.
pub fn hex_decode(s: &Vec<u8>) -> (r: Option<Vec<u8>>)
    ensures
        r is Some <==> hex_ok(s@),
        r matches Some(v) ==> v@ == hex_bytes(s@),
{
    if s.len() % 2 != 0 {
        return None;
    }
    let mut out: Vec<u8> = Vec::new();
    let mut i: usize = 0;
    while i < s.len()
        invariant
            s@.len() % 2 == 0,
            i % 2 == 0,
            i <= s@.len(),
            forall|j: int| 0 <= j < i ==> is_hex_digit(#[trigger] s@[j]),
            out@ == hex_bytes(s@.take(i as int)),
        decreases s@.len() - i,
    {
        let hi = match hex_val(s[i]) {
            Some(v) => v,
            None => {
                return None;
            },
        };
        let lo = match hex_val(s[i + 1]) {
            Some(v) => v,
            None => {
                return None;
            },
        };
        out.push(hi * 16 + lo);
        proof {
            assert(out@ =~= hex_bytes(s@.take(i + 2)));
        }
        i += 2;
    }
    proof {
        assert(s@.take(s@.len() as int) =~= s@);
    }
    Some(out)
}

/// A decimal digit.
pub open spec fn is_dec_digit(b: u8) -> bool {
    48 <= b <= 57
}

/// A well-formed decimal field: at least one digit, digits only.
pub open spec fn dec_ok(s: Seq<u8>) -> bool {
    s.len() > 0 && forall|i: int| 0 <= i < s.len() ==> is_dec_digit(#[trigger] s[i])
}

/// The number a decimal field denotes.
pub open spec fn dec_value(s: Seq<u8>) -> nat
    decreases s.len(),
{
    if s.len() == 0 {
        0
    } else {
        (dec_value(s.drop_last()) * 10 + (s.last() - 48)) as nat
    }
}

proof fn lemma_dec_value_step(s: Seq<u8>, j: int)
    requires
        0 <= j < s.len(),
        is_dec_digit(s[j]),
    ensures
        dec_value(s.take(j + 1)) == dec_value(s.take(j)) * 10 + (s[j] - 48),
{
    assert(s.take(j + 1).drop_last() =~= s.take(j));
    assert(s.take(j + 1).last() == s[j]);
}

proof fn lemma_dec_value_mono(s: Seq<u8>, j: int)
    requires
        0 <= j <= s.len(),
        forall|i: int| 0 <= i < s.len() ==> is_dec_digit(#[trigger] s[i]),
    ensures
        dec_value(s.take(j)) <= dec_value(s),
    decreases s.len() - j,
{
    if j == s.len() {
        assert(s.take(j) =~= s);
    } else {
        lemma_dec_value_step(s, j);
        lemma_dec_value_mono(s, j + 1);
    }
}

/// Parses the decimal `Count` field; `None` exactly when the field is empty,
/// holds a byte that is no decimal digit, or denotes a number above
/// `u32::MAX`.
pub fn parse_dec_u32(s: &Vec<u8>) -> (r: Option<u32>)
    ensures
        r is Some <==> dec_ok(s@) && dec_value(s@) <= u32::MAX,
        r matches Some(v) ==> v == dec_value(s@),
{
    if s.len() == 0 {
        return None;
    }
    let mut acc: u32 = 0;
    let mut i: usize = 0;
    while i < s.len()
        invariant
            i <= s@.len(),
            forall|j: int| 0 <= j < i ==> is_dec_digit(#[trigger] s@[j]),
            acc == dec_value(s@.take(i as int)),
        decreases s@.len() - i,
    {
        let b = s[i];
        if b < 48 || b > 57 {
            return None;
        }
        let d: u32 = (b - 48) as u32;
        proof {
            lemma_dec_value_step(s@, i as int);
        }
        if acc > (u32::MAX - d) / 10 {
            proof {
                if dec_ok(s@) {
                    lemma_dec_value_mono(s@, i + 1);
                }
            }
            return None;
        }
        acc = acc * 10 + d;
        i += 1;
    }
    proof {
        assert(s@.take(s@.len() as int) =~= s@);
    }
    Some(acc)
}

/// The fixed-size form of a decoded key or nonce field: truncated to 16
/// bytes when longer, zero-padded to 16 bytes when shorter.
pub open spec fn padded16(s: Seq<u8>) -> Seq<u8> {
    if s.len() >= 16 {
        s.take(16)
    } else {
        s + Seq::new((16 - s.len()) as nat, |i: int| 0u8)
    }
}

fn pad_to_16(v: &Vec<u8>) -> (r: Vec<u8>)
    ensures
        r@ == padded16(v@),
        r@.len() == 16,
{
    let mut r: Vec<u8> = Vec::new();
    let mut i: usize = 0;
    while i < 16 && i < v.len()
        invariant
            i <= 16,
            i <= v@.len(),
            r@ == v@.take(i as int),
        decreases 16 - i,
    {
        r.push(v[i]);
        proof {
            assert(r@ =~= v@.take(i + 1));
        }
        i += 1;
    }
    if r.len() == 16 {
        proof {
            assert(r@ =~= padded16(v@));
        }
        return r;
    }
    proof {
        assert(r@ =~= v@ + Seq::new(0nat, |j: int| 0u8));
    }
    while r.len() < 16
        invariant
            v@.len() < 16,
            v@.len() <= r@.len() <= 16,
            r@ == v@ + Seq::new((r@.len() - v@.len()) as nat, |j: int| 0u8),
        decreases 16 - r@.len(),
    {
        r.push(0);
        proof {
            assert(r@ =~= v@ + Seq::new((r@.len() - v@.len()) as nat, |j: int| 0u8));
        }
    }
    proof {
        assert(r@ =~= padded16(v@));
    }
    r
}

fn subvec(v: &Vec<u8>, from: usize, to: usize) -> (r: Vec<u8>)
    requires
        from <= to <= v@.len(),
    ensures
        r@ == v@.subrange(from as int, to as int),
{
    let mut r: Vec<u8> = Vec::new();
    let mut i: usize = from;
    while i < to
        invariant
            from <= i <= to <= v@.len(),
            r@ == v@.subrange(from as int, i as int),
        decreases to - i,
    {
        r.push(v[i]);
        proof {
            assert(r@ =~= v@.subrange(from as int, i + 1));
        }
        i += 1;
    }
    r
}

/// The ` = ` separator stands in `s` at position `i`.
pub open spec fn sep_at(s: Seq<u8>, i: int) -> bool {
    0 <= i && i + 3 <= s.len() && s[i] == 32 && s[i + 1] == 61 && s[i + 2] == 32
}

/// Splits a field line at the first ` = ` separator into its name and its
/// value; `None` exactly when the line has no separator.
pub fn split_field(line: &Vec<u8>) -> (r: Option<(Vec<u8>, Vec<u8>)>)
    ensures
        r matches Some(nv) ==> {
            &&& line@ == nv.0@ + seq![32u8, 61u8, 32u8] + nv.1@
            &&& sep_at(line@, nv.0@.len() as int)
            &&& forall|j: int| 0 <= j < nv.0@.len() ==> !sep_at(line@, j)
        },
        r is None ==> forall|j: int| !sep_at(line@, j),
{
    let n = line.len();
    if n < 3 {
        return None;
    }
    let mut i: usize = 0;
    while i <= n - 3
        invariant
            3 <= n == line@.len(),
            i <= n - 2,
            forall|j: int| 0 <= j < i ==> !sep_at(line@, j),
        decreases n - i,
    {
        if line[i] == 32 && line[i + 1] == 61 && line[i + 2] == 32 {
            let name = subvec(line, 0, i);
            let val = subvec(line, i + 3, n);
            proof {
                assert(line@ =~= name@ + seq![32u8, 61u8, 32u8] + val@);
            }
            return Some((name, val));
        }
        i += 1;
    }
    None
}

fn name_is_count(v: &Vec<u8>) -> (r: bool)
    ensures
        r <==> v@ == seq![67u8, 111u8, 117u8, 110u8, 116u8],
{
    let r = v.len() == 5 && v[0] == 67 && v[1] == 111 && v[2] == 117 && v[3] == 110 && v[4] == 116;
    proof {
        if r {
            assert(v@ =~= seq![67u8, 111u8, 117u8, 110u8, 116u8]);
        }
    }
    r
}

fn name_is_key(v: &Vec<u8>) -> (r: bool)
    ensures
        r <==> v@ == seq![75u8, 101u8, 121u8],
{
    let r = v.len() == 3 && v[0] == 75 && v[1] == 101 && v[2] == 121;
    proof {
        if r {
            assert(v@ =~= seq![75u8, 101u8, 121u8]);
        }
    }
    r
}

fn name_is_nonce(v: &Vec<u8>) -> (r: bool)
    ensures
        r <==> v@ == seq![78u8, 111u8, 110u8, 99u8, 101u8],
{
    let r = v.len() == 5 && v[0] == 78 && v[1] == 111 && v[2] == 110 && v[3] == 99 && v[4] == 101;
    proof {
        if r {
            assert(v@ =~= seq![78u8, 111u8, 110u8, 99u8, 101u8]);
        }
    }
    r
}

fn name_is_pt(v: &Vec<u8>) -> (r: bool)
    ensures
        r <==> v@ == seq![80u8, 84u8],
{
    let r = v.len() == 2 && v[0] == 80 && v[1] == 84;
    proof {
        if r {
            assert(v@ =~= seq![80u8, 84u8]);
        }
    }
    r
}

fn name_is_ad(v: &Vec<u8>) -> (r: bool)
    ensures
        r <==> v@ == seq![65u8, 68u8],
{
    let r = v.len() == 2 && v[0] == 65 && v[1] == 68;
    proof {
        if r {
            assert(v@ =~= seq![65u8, 68u8]);
        }
    }
    r
}

fn name_is_ct(v: &Vec<u8>) -> (r: bool)
    ensures
        r <==> v@ == seq![67u8, 84u8],
{
    let r = v.len() == 2 && v[0] == 67 && v[1] == 84;
    proof {
        if r {
            assert(v@ =~= seq![67u8, 84u8]);
        }
    }
    r
}

/// The field name `Count`.
pub open spec fn count_name() -> Seq<u8> {
    seq![67u8, 111u8, 117u8, 110u8, 116u8]
}

/// The field name `Key`.
pub open spec fn key_name() -> Seq<u8> {
    seq![75u8, 101u8, 121u8]
}

/// The field name `Nonce`.
pub open spec fn nonce_name() -> Seq<u8> {
    seq![78u8, 111u8, 110u8, 99u8, 101u8]
}

/// The field name `PT`.
pub open spec fn pt_name() -> Seq<u8> {
    seq![80u8, 84u8]
}

/// The field name `AD`.
pub open spec fn ad_name() -> Seq<u8> {
    seq![65u8, 68u8]
}

/// The field name `CT`.
pub open spec fn ct_name() -> Seq<u8> {
    seq![67u8, 84u8]
}

/// Position of the first ` = ` separator in `s`, or `s.len()` when there is
/// none.
pub open spec fn first_sep(s: Seq<u8>) -> int
    decreases s.len(),
{
    if s.len() < 3 {
        s.len() as int
    } else if s[0] == 32 && s[1] == 61 && s[2] == 32 {
        0
    } else {
        1 + first_sep(s.skip(1))
    }
}

proof fn lemma_first_sep_found(s: Seq<u8>, i: int)
    requires
        0 <= i,
        sep_at(s, i),
        forall|j: int| 0 <= j < i ==> !sep_at(s, j),
    ensures
        first_sep(s) == i,
    decreases i,
{
    if i > 0 {
        assert(!sep_at(s, 0));
        let t = s.skip(1);
        assert(sep_at(t, i - 1)) by {
            assert(t[i - 1] == s[i] && t[i] == s[i + 1] && t[i + 1] == s[i + 2]);
        }
        assert forall|j: int| 0 <= j < i - 1 implies !sep_at(t, j) by {
            if sep_at(t, j) {
                assert(s[j + 1] == t[j] && s[j + 2] == t[j + 1] && s[j + 3] == t[j + 2]);
                assert(sep_at(s, j + 1));
            }
        }
        lemma_first_sep_found(t, i - 1);
    }
}

proof fn lemma_first_sep_none(s: Seq<u8>)
    requires
        forall|j: int| !sep_at(s, j),
    ensures
        first_sep(s) == s.len(),
    decreases s.len(),
{
    if s.len() >= 3 {
        assert(!sep_at(s, 0));
        let t = s.skip(1);
        assert forall|j: int| !sep_at(t, j) by {
            if sep_at(t, j) {
                assert(s[j + 1] == t[j] && s[j + 2] == t[j + 1] && s[j + 3] == t[j + 2]);
                assert(sep_at(s, j + 1));
            }
        }
        lemma_first_sep_none(t);
    }
}

/// A line with its single optional trailing carriage return removed.
pub open spec fn strip_cr(l: Seq<u8>) -> Seq<u8> {
    if l.len() > 0 && l[l.len() - 1] == 13 {
        l.drop_last()
    } else {
        l
    }
}

/// The lines of `s` still to come, given the bytes `cur` of the line begun
/// so far: lines are separated by a line feed, each loses one trailing
/// carriage return, and a final line needs no terminator.
pub open spec fn lines_from(s: Seq<u8>, cur: Seq<u8>) -> Seq<Seq<u8>>
    decreases s.len(),
{
    if s.len() == 0 {
        if cur.len() == 0 {
            Seq::empty()
        } else {
            seq![strip_cr(cur)]
        }
    } else if s[0] == 10 {
        seq![strip_cr(cur)] + lines_from(s.skip(1), Seq::empty())
    } else {
        lines_from(s.skip(1), cur.push(s[0]))
    }
}

/// The lines of a whole file.
pub open spec fn spec_lines(s: Seq<u8>) -> Seq<Seq<u8>> {
    lines_from(s, Seq::empty())
}

/// The raw field values gathered for the record currently open, and whether
/// any field line at all has been seen since the last blank line.
pub struct SpecFields {
    pub count: Option<Seq<u8>>,
    pub key: Option<Seq<u8>>,
    pub nonce: Option<Seq<u8>>,
    pub pt: Option<Seq<u8>>,
    pub ad: Option<Seq<u8>>,
    pub ct: Option<Seq<u8>>,
    pub seen: bool,
}

/// No fields gathered yet.
pub open spec fn empty_fields() -> SpecFields {
    SpecFields { count: None, key: None, nonce: None, pt: None, ad: None, ct: None, seen: false }
}

/// One field line routed into the gathered fields: a known name fills its
/// slot (a later duplicate overwrites), an unknown name only marks the
/// record as begun.
pub open spec fn route_field(f: SpecFields, name: Seq<u8>, val: Seq<u8>) -> SpecFields {
    if name == count_name() {
        SpecFields { count: Some(val), key: f.key, nonce: f.nonce, pt: f.pt, ad: f.ad, ct: f.ct, seen: true }
    } else if name == key_name() {
        SpecFields { count: f.count, key: Some(val), nonce: f.nonce, pt: f.pt, ad: f.ad, ct: f.ct, seen: true }
    } else if name == nonce_name() {
        SpecFields { count: f.count, key: f.key, nonce: Some(val), pt: f.pt, ad: f.ad, ct: f.ct, seen: true }
    } else if name == pt_name() {
        SpecFields { count: f.count, key: f.key, nonce: f.nonce, pt: Some(val), ad: f.ad, ct: f.ct, seen: true }
    } else if name == ad_name() {
        SpecFields { count: f.count, key: f.key, nonce: f.nonce, pt: f.pt, ad: Some(val), ct: f.ct, seen: true }
    } else if name == ct_name() {
        SpecFields { count: f.count, key: f.key, nonce: f.nonce, pt: f.pt, ad: f.ad, ct: Some(val), seen: true }
    } else {
        SpecFields { count: f.count, key: f.key, nonce: f.nonce, pt: f.pt, ad: f.ad, ct: f.ct, seen: true }
    }
}

/// All six required fields are present.
pub open spec fn fields_complete(f: SpecFields) -> bool {
    f.count is Some && f.key is Some && f.nonce is Some && f.pt is Some && f.ad is Some
        && f.ct is Some
}

/// All six field values decode.
pub open spec fn fields_ok(f: SpecFields) -> bool {
    dec_ok(f.count->0) && dec_value(f.count->0) <= u32::MAX && hex_ok(f.key->0) && hex_ok(
        f.nonce->0,
    ) && hex_ok(f.pt->0) && hex_ok(f.ad->0) && hex_ok(f.ct->0)
}

/// The record that a complete, decodable group of fields denotes.
pub open spec fn record_of(f: SpecFields) -> SpecRecord {
    SpecRecord {
        count: dec_value(f.count->0),
        key: padded16(hex_bytes(f.key->0)),
        nonce: padded16(hex_bytes(f.nonce->0)),
        plaintext: hex_bytes(f.pt->0),
        associated_data: hex_bytes(f.ad->0),
        ciphertext: hex_bytes(f.ct->0),
    }
}

/// One line of the file applied to the parse state: a blank line closes the
/// open record (an incomplete or undecodable one is an error; no open record
/// is a no-op), a line with a separator routes its field, and a line
/// without one is malformed.
pub open spec fn step_line(l: Seq<u8>, f: SpecFields, acc: Seq<SpecRecord>) -> Result<
    (SpecFields, Seq<SpecRecord>),
    KatError,
> {
    if l.len() == 0 {
        if f.seen {
            if !fields_complete(f) {
                Err(KatError::MissingField)
            } else if !fields_ok(f) {
                Err(KatError::BadField)
            } else {
                Ok((empty_fields(), acc.push(record_of(f))))
            }
        } else {
            Ok((f, acc))
        }
    } else if first_sep(l) + 3 <= l.len() {
        Ok((route_field(f, l.take(first_sep(l)), l.skip(first_sep(l) + 3)), acc))
    } else {
        Err(KatError::MalformedLine)
    }
}

/// The whole file as a fold of `step_line` over its lines; at the end a
/// group not closed by a blank line is dropped, and zero records is itself
/// an error.
pub open spec fn run_lines(lines: Seq<Seq<u8>>, f: SpecFields, acc: Seq<SpecRecord>) -> Result<
    Seq<SpecRecord>,
    KatError,
>
    decreases lines.len(),
{
    if lines.len() == 0 {
        if acc.len() == 0 {
            Err(KatError::NoRecords)
        } else {
            Ok(acc)
        }
    } else {
        match step_line(lines[0], f, acc) {
            Ok(p) => run_lines(lines.skip(1), p.0, p.1),
            Err(e) => Err(e),
        }
    }
}

/// What parsing a vector file yields: its records in order, or the first
/// error.
pub open spec fn spec_parse(input: Seq<u8>) -> Result<Seq<SpecRecord>, KatError> {
    if input.len() == 0 {
        Err(KatError::NoRecords)
    } else {
        run_lines(spec_lines(input), empty_fields(), Seq::empty())
    }
}

/// Builds one record from the six raw field values: the count parsed as a
/// decimal number, every other field hex-decoded, key and nonce brought to
/// exactly 16 bytes. `Err` exactly when one of the fields does not decode.
pub fn build_record(
    count: &Vec<u8>,
    key: &Vec<u8>,
    nonce: &Vec<u8>,
    pt: &Vec<u8>,
    ad: &Vec<u8>,
    ct: &Vec<u8>,
) -> (r: Result<TestVector, KatError>)
    ensures
        r is Ok <==> dec_ok(count@) && dec_value(count@) <= u32::MAX && hex_ok(key@) && hex_ok(
            nonce@,
        ) && hex_ok(pt@) && hex_ok(ad@) && hex_ok(ct@),
        r matches Ok(tv) ==> {
            &&& tv.count == dec_value(count@)
            &&& tv.key@ == padded16(hex_bytes(key@))
            &&& tv.nonce@ == padded16(hex_bytes(nonce@))
            &&& tv.plaintext@ == hex_bytes(pt@)
            &&& tv.associated_data@ == hex_bytes(ad@)
            &&& tv.ciphertext@ == hex_bytes(ct@)
            &&& tv_wf(tv)
        },
        r matches Err(e) ==> e == KatError::BadField,
{
    let count_v = match parse_dec_u32(count) {
        Some(v) => v,
        None => {
            return Err(KatError::BadField);
        },
    };
    let key_v = match hex_decode(key) {
        Some(v) => v,
        None => {
            return Err(KatError::BadField);
        },
    };
    let nonce_v = match hex_decode(nonce) {
        Some(v) => v,
        None => {
            return Err(KatError::BadField);
        },
    };
    let pt_v = match hex_decode(pt) {
        Some(v) => v,
        None => {
            return Err(KatError::BadField);
        },
    };
    let ad_v = match hex_decode(ad) {
        Some(v) => v,
        None => {
            return Err(KatError::BadField);
        },
    };
    let ct_v = match hex_decode(ct) {
        Some(v) => v,
        None => {
            return Err(KatError::BadField);
        },
    };
    Ok(
        TestVector {
            count: count_v,
            key: pad_to_16(&key_v),
            nonce: pad_to_16(&nonce_v),
            plaintext: pt_v,
            associated_data: ad_v,
            ciphertext: ct_v,
        },
    )
}

struct ParseState {
    records: Vec<TestVector>,
    f_count: Option<Vec<u8>>,
    f_key: Option<Vec<u8>>,
    f_nonce: Option<Vec<u8>>,
    f_pt: Option<Vec<u8>>,
    f_ad: Option<Vec<u8>>,
    f_ct: Option<Vec<u8>>,
    seen: bool,
}

spec fn opt_view(o: Option<Vec<u8>>) -> Option<Seq<u8>> {
    match o {
        Some(v) => Some(v@),
        None => None,
    }
}

impl ParseState {
    spec fn fields(&self) -> SpecFields {
        SpecFields {
            count: opt_view(self.f_count),
            key: opt_view(self.f_key),
            nonce: opt_view(self.f_nonce),
            pt: opt_view(self.f_pt),
            ad: opt_view(self.f_ad),
            ct: opt_view(self.f_ct),
            seen: self.seen,
        }
    }

    spec fn recs(&self) -> Seq<SpecRecord> {
        self.records@.map_values(|tv: TestVector| tv@)
    }

    spec fn wf(&self) -> bool {
        forall|j: int| 0 <= j < self.records@.len() ==> tv_wf(#[trigger] self.records@[j])
    }
}

fn handle_line(line: &Vec<u8>, st: &mut ParseState) -> (r: Result<(), KatError>)
    requires
        old(st).wf(),
    ensures
        final(st).wf(),
        r is Ok ==> (step_line(line@, old(st).fields(), old(st).recs()) matches Ok(p)
            && final(st).fields() == p.0 && final(st).recs() == p.1),
        r matches Err(e) ==> (step_line(line@, old(st).fields(), old(st).recs()) matches Err(e2)
            && e2 == e),
{
    if line.len() == 0 {
        if st.seen {
            let tv = match (&st.f_count, &st.f_key, &st.f_nonce, &st.f_pt, &st.f_ad, &st.f_ct) {
                (Some(c), Some(k), Some(nn), Some(p), Some(a), Some(t)) => {
                    match build_record(c, k, nn, p, a, t) {
                        Ok(tv) => tv,
                        Err(e) => {
                            return Err(e);
                        },
                    }
                },
                _ => {
                    return Err(KatError::MissingField);
                },
            };
            proof {
                assert(tv@ == record_of(old(st).fields()));
            }
            st.records.push(tv);
            st.f_count = None;
            st.f_key = None;
            st.f_nonce = None;
            st.f_pt = None;
            st.f_ad = None;
            st.f_ct = None;
            st.seen = false;
            proof {
                assert(st.recs() =~= old(st).recs().push(record_of(old(st).fields())));
                assert(st.fields() == empty_fields());
            }
            Ok(())
        } else {
            Ok(())
        }
    } else {
        let (name, val) = match split_field(line) {
            Some(nv) => nv,
            None => {
                proof {
                    lemma_first_sep_none(line@);
                }
                return Err(KatError::MalformedLine);
            },
        };
        proof {
            lemma_first_sep_found(line@, name@.len() as int);
            assert(line@.take(first_sep(line@)) =~= name@);
            assert(line@.skip(first_sep(line@) + 3) =~= val@);
        }
        if name_is_count(&name) {
            st.f_count = Some(val);
        } else if name_is_key(&name) {
            st.f_key = Some(val);
        } else if name_is_nonce(&name) {
            st.f_nonce = Some(val);
        } else if name_is_pt(&name) {
            st.f_pt = Some(val);
        } else if name_is_ad(&name) {
            st.f_ad = Some(val);
        } else if name_is_ct(&name) {
            st.f_ct = Some(val);
        }
        st.seen = true;
        proof {
            assert(st.fields() == route_field(old(st).fields(), name@, val@));
        }
        Ok(())
    }
}

/// Parses a whole vector file; the result is exactly `spec_parse` of the
/// input bytes: lines are separated by a line feed (an optional carriage
/// return before it is dropped), a blank line closes the record gathered so
/// far, fields of unknown name are gathered but ignored, a later duplicate
/// overwrites an earlier field, and a trailing group of fields not closed by
/// a blank line is dropped. A file that yields no records is rejected, as is
/// any malformed line or incomplete or undecodable record.
pub fn parse_kat_file(input: &Vec<u8>) -> (r: Result<Vec<TestVector>, KatError>)
    ensures
        r is Ok <==> spec_parse(input@) is Ok,
        r matches Ok(tvs) ==> (spec_parse(input@) matches Ok(rs)
            && tvs@.map_values(|tv: TestVector| tv@) == rs
            && tvs@.len() >= 1
            && forall|i: int| 0 <= i < tvs@.len() ==> tv_wf(#[trigger] tvs@[i])),
        r matches Err(e) ==> (spec_parse(input@) matches Err(e2) && e2 == e),
        input@.len() == 0 ==> (r matches Err(e) && e == KatError::NoRecords),
{
    if input.len() == 0 {
        return Err(KatError::NoRecords);
    }
    let mut st = ParseState {
        records: Vec::new(),
        f_count: None,
        f_key: None,
        f_nonce: None,
        f_pt: None,
        f_ad: None,
        f_ct: None,
        seen: false,
    };
    let mut cur: Vec<u8> = Vec::new();
    let n = input.len();
    let mut i: usize = 0;
    proof {
        assert(st.recs() =~= Seq::<SpecRecord>::empty());
        assert(st.fields() == empty_fields());
        assert(input@.skip(0) =~= input@);
        assert(cur@ =~= Seq::<u8>::empty());
    }
    while i < n
        invariant
            n == input@.len(),
            0 < n,
            i <= n,
            st.wf(),
            spec_parse(input@) == run_lines(lines_from(input@.skip(i as int), cur@), st.fields(), st.recs()),
        decreases n - i,
    {
        let b = input[i];
        proof {
            assert(input@.skip(i as int)[0] == b);
            assert(input@.skip(i as int).skip(1) =~= input@.skip(i + 1));
        }
        if b == 10 {
            let ghost cur0 = cur@;
            if cur.len() > 0 && cur[cur.len() - 1] == 13 {
                let _ = cur.pop();
            }
            proof {
                assert(cur@ =~= strip_cr(cur0));
                let rest = lines_from(input@.skip(i + 1), Seq::<u8>::empty());
                assert(lines_from(input@.skip(i as int), cur0) == seq![strip_cr(cur0)] + rest);
                assert((seq![strip_cr(cur0)] + rest)[0] == cur@);
                assert((seq![strip_cr(cur0)] + rest).skip(1) =~= rest);
            }
            let ghost pre_fields = st.fields();
            let ghost pre_recs = st.recs();
            match handle_line(&cur, &mut st) {
                Ok(()) => {},
                Err(e) => {
                    return Err(e);
                },
            }
            proof {
                let rest = lines_from(input@.skip(i + 1), Seq::<u8>::empty());
                assert(run_lines(seq![strip_cr(cur0)] + rest, pre_fields, pre_recs)
                    == run_lines(rest, st.fields(), st.recs()));
            }
            cur.clear();
        } else {
            let ghost curp = cur@;
            cur.push(b);
            proof {
                assert(lines_from(input@.skip(i as int), curp) == lines_from(
                    input@.skip(i + 1),
                    cur@,
                ));
            }
        }
        i += 1;
    }
    proof {
        assert(input@.skip(n as int) =~= Seq::<u8>::empty());
    }
    if cur.len() > 0 {
        let ghost cur0 = cur@;
        if cur[cur.len() - 1] == 13 {
            let _ = cur.pop();
        }
        proof {
            assert(cur@ =~= strip_cr(cur0));
            assert(lines_from(Seq::<u8>::empty(), cur0) =~= seq![strip_cr(cur0)]);
            assert(seq![strip_cr(cur0)][0] == cur@);
            assert(seq![strip_cr(cur0)].skip(1) =~= Seq::<Seq<u8>>::empty());
        }
        let ghost pre_fields = st.fields();
        let ghost pre_recs = st.recs();
        match handle_line(&cur, &mut st) {
            Ok(()) => {},
            Err(e) => {
                return Err(e);
            },
        }
        proof {
            assert(run_lines(seq![strip_cr(cur0)], pre_fields, pre_recs)
                == run_lines(Seq::<Seq<u8>>::empty(), st.fields(), st.recs()));
        }
    } else {
        proof {
            assert(lines_from(Seq::<u8>::empty(), cur@) =~= Seq::<Seq<u8>>::empty());
        }
    }
    proof {
        assert(spec_parse(input@) == run_lines(Seq::<Seq<u8>>::empty(), st.fields(), st.recs()));
        assert(st.recs().len() == st.records@.len());
    }
    if st.records.len() == 0 {
        return Err(KatError::NoRecords);
    }
    Ok(st.records)
}

} // verus!
