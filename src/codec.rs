//! Fixed-width binary layout of a record and the capacity arithmetic
//! derived from it.
use vstd::prelude::*;
use vstd::utf8::*;
use vstd::string::*;

verus! {

broadcast use vstd::utf8::encode_utf8_decode_utf8;

/// Bytes taken by the identifier, stored little-endian.
pub const ID_SIZE: usize = 4;
/// Bytes reserved for the username.
pub const USERNAME_SIZE: usize = 32;
/// Bytes reserved for the email address.
pub const EMAIL_SIZE: usize = 255;
/// The byte that pads a text slot. UTF-8 never contains it, so a slot's
/// text ends at its first padding byte.
pub const PAD: u8 = 0xff;
/// Offset of the identifier inside an encoded record.
pub const ID_OFFSET: usize = 0;
/// Offset of the username inside an encoded record.
pub const USERNAME_OFFSET: usize = 4;
/// Offset of the email inside an encoded record.
pub const EMAIL_OFFSET: usize = 36;
/// Total size of an encoded record.
pub const ROW_SIZE: usize = 291;
/// Size of a storage page.
pub const PAGE_SIZE: usize = 4096;
/// Number of pages of the capacity-bounded store.
pub const PAGE_COUNT: usize = 100;
/// Whole records that fit in one page.
pub const ROWS_PER_PAGE: usize = PAGE_SIZE / ROW_SIZE;
/// Capacity of the capacity-bounded store.
pub const TABLE_MAX_ROWS: usize = ROWS_PER_PAGE * PAGE_COUNT;

/// A field of a record.
#[derive(Clone, Copy, Debug, PartialEq, Eq, Structural)]
pub enum Field {
    Id,
    Username,
    Email,
}

/// Why a record could not be encoded or decoded.
#[derive(Clone, Copy, Debug, PartialEq, Eq, Structural)]
pub enum CodecError {
    /// The field's UTF-8 form is longer than its slot.
    FieldTooLong(Field),
    /// An encoded record must be exactly `ROW_SIZE` bytes long.
    WrongLength,
    /// The bytes of the slot are not UTF-8.
    InvalidUtf8(Field),
}

/// A record: an identifier with a username and an email address.
#[derive(Debug)]
pub struct Row {
    pub id: u32,
    pub username: String,
    pub email: String,
}

/// The mathematical value of a record.
pub struct RowModel {
    pub id: u32,
    pub username: Seq<char>,
    pub email: Seq<char>,
}

impl View for Row {
    type V = RowModel;

    open spec fn view(&self) -> RowModel {
        RowModel { id: self.id, username: self.username@, email: self.email@ }
    }
}

impl Row {
    /// A record with the given fields.
    pub fn new(id: u32, username: String, email: String) -> (r: Row)
        ensures
            r.id == id,
            r.username@ == username@,
            r.email@ == email@,
    {
        Row { id, username, email }
    }

    /// The record with identifier 0 and empty text fields.
    pub fn empty() -> (r: Row)
        ensures
            r.id == 0,
            r.username@ == Seq::<char>::empty(),
            r.email@ == Seq::<char>::empty(),
    {
        Row { id: 0, username: String::new(), email: String::new() }
    }

    /// A copy of this record.
    pub fn duplicate(&self) -> (r: Row)
        ensures
            r@ == self@,
    {
        Row { id: self.id, username: self.username.clone(), email: self.email.clone() }
    }
}

/// Whether a text fits a slot of `width` bytes: its UTF-8 form is at most
/// `width` bytes long.
pub open spec fn fits_slot(s: Seq<char>, width: nat) -> bool {
    encode_utf8(s).len() <= width
}

/// Why the text `s` does not fit a slot of `width` bytes, if it does not.
pub open spec fn slot_error(s: Seq<char>, width: nat, f: Field) -> Option<CodecError> {
    if encode_utf8(s).len() > width {
        Some(CodecError::FieldTooLong(f))
    } else {
        None
    }
}

/// The first reason for which a record cannot be encoded, if there is one.
pub open spec fn encode_error(r: RowModel) -> Option<CodecError> {
    match slot_error(r.username, USERNAME_SIZE as nat, Field::Username) {
        Some(e) => Some(e),
        None => slot_error(r.email, EMAIL_SIZE as nat, Field::Email),
    }
}

/// Whether a record can be encoded.
pub open spec fn row_fits(r: RowModel) -> bool {
    fits_slot(r.username, USERNAME_SIZE as nat) && fits_slot(r.email, EMAIL_SIZE as nat)
}

/// The four little-endian bytes of an identifier.
pub open spec fn id_bytes(id: u32) -> Seq<u8> {
    seq![
        (id & 0xff) as u8,
        ((id >> 8u32) & 0xff) as u8,
        ((id >> 16u32) & 0xff) as u8,
        ((id >> 24u32) & 0xff) as u8,
    ]
}

/// The identifier stored little-endian in four bytes.
pub open spec fn id_of_bytes(b0: u8, b1: u8, b2: u8, b3: u8) -> u32 {
    (b0 as u32) | ((b1 as u32) << 8u32) | ((b2 as u32) << 16u32) | ((b3 as u32) << 24u32)
}

/// A slot of `width` bytes holding the UTF-8 form of `s`, padded with `PAD`.
pub open spec fn slot_bytes(s: Seq<char>, width: nat) -> Seq<u8> {
    encode_utf8(s) + Seq::new((width - encode_utf8(s).len()) as nat, |i: int| PAD)
}

/// The encoded form of a record.
pub open spec fn encode_spec(r: RowModel) -> Seq<u8> {
    id_bytes(r.id) + slot_bytes(r.username, USERNAME_SIZE as nat) + slot_bytes(
        r.email,
        EMAIL_SIZE as nat,
    )
}

/// The bytes of a slot before its first padding byte.
pub open spec fn until_pad(f: Seq<u8>) -> Seq<u8>
    decreases f.len(),
{
    if f.len() == 0 {
        f
    } else if f[0] == PAD {
        Seq::empty()
    } else {
        seq![f[0]] + until_pad(f.drop_first())
    }
}

/// The text held by a slot, if its content is UTF-8.
pub open spec fn slot_text(f: Seq<u8>) -> Option<Seq<char>> {
    if valid_utf8(until_pad(f)) {
        Some(decode_utf8(until_pad(f)))
    } else {
        None
    }
}

/// The username slot of an encoded record.
pub open spec fn username_slot(b: Seq<u8>) -> Seq<u8> {
    b.subrange(USERNAME_OFFSET as int, EMAIL_OFFSET as int)
}

/// The email slot of an encoded record.
pub open spec fn email_slot(b: Seq<u8>) -> Seq<u8> {
    b.subrange(EMAIL_OFFSET as int, ROW_SIZE as int)
}

/// The record that `b` encodes, or why it encodes none.
pub open spec fn decode_spec(b: Seq<u8>) -> Result<RowModel, CodecError> {
    match slot_text(username_slot(b)) {
        None => Err(CodecError::InvalidUtf8(Field::Username)),
        Some(u) => match slot_text(email_slot(b)) {
            None => Err(CodecError::InvalidUtf8(Field::Email)),
            Some(e) => Ok(RowModel { id: id_of_bytes(b[0], b[1], b[2], b[3]), username: u, email: e }),
        },
    }
}

proof fn lemma_id_bytes(id: u32)
    ensures
        id_of_bytes(id_bytes(id)[0], id_bytes(id)[1], id_bytes(id)[2], id_bytes(id)[3]) == id,
{
    let b0 = (id & 0xff) as u8;
    let b1 = ((id >> 8u32) & 0xff) as u8;
    let b2 = ((id >> 16u32) & 0xff) as u8;
    let b3 = ((id >> 24u32) & 0xff) as u8;
    assert((b0 as u32) | ((b1 as u32) << 8u32) | ((b2 as u32) << 16u32) | ((b3 as u32) << 24u32)
        == id) by (bit_vector)
        requires
            b0 == (id & 0xff) as u8,
            b1 == ((id >> 8u32) & 0xff) as u8,
            b2 == ((id >> 16u32) & 0xff) as u8,
            b3 == ((id >> 24u32) & 0xff) as u8,
    ;
}

/// The content of a slot ends at index `k` when no padding byte comes before
/// it and the slot ends or holds a padding byte there.
proof fn lemma_until_pad(f: Seq<u8>, k: int)
    requires
        0 <= k <= f.len(),
        forall|j: int| 0 <= j < k ==> f[j] != PAD,
        k == f.len() || f[k] == PAD,
    ensures
        until_pad(f) == f.subrange(0, k),
    decreases f.len(),
{
    if f.len() == 0 {
        assert(f.subrange(0, k) =~= f);
    } else if k == 0 {
        assert(f.subrange(0, k) =~= Seq::<u8>::empty());
    } else {
        lemma_until_pad(f.drop_first(), k - 1);
        assert(seq![f[0]] + f.drop_first().subrange(0, k - 1) =~= f.subrange(0, k));
    }
}

proof fn lemma_scalar_has_no_pad(v: u32)
    ensures
        forall|i: int| 0 <= i < encode_scalar(v).len() ==> encode_scalar(v)[i] != PAD,
{
    assert((v & 0x7F) as u8 != 0xffu8) by (bit_vector);
    assert((0xC0u8 | ((v >> 6u32) & 0x1F) as u8) != 0xffu8) by (bit_vector);
    assert((0xE0u8 | ((v >> 12u32) & 0x0F) as u8) != 0xffu8) by (bit_vector);
    assert((0xF0u8 | ((v >> 18u32) & 0x7) as u8) != 0xffu8) by (bit_vector);
    assert((0x80u8 | (v & 0x3F) as u8) != 0xffu8) by (bit_vector);
    assert((0x80u8 | ((v >> 6u32) & 0x3F) as u8) != 0xffu8) by (bit_vector);
    assert((0x80u8 | ((v >> 12u32) & 0x3F) as u8) != 0xffu8) by (bit_vector);
}

/// The UTF-8 form of a text never holds the padding byte.
proof fn lemma_utf8_has_no_pad(s: Seq<char>)
    ensures
        forall|i: int| 0 <= i < encode_utf8(s).len() ==> encode_utf8(s)[i] != PAD,
    decreases s.len(),
{
    if s.len() > 0 {
        lemma_scalar_has_no_pad(s[0] as u32);
        lemma_utf8_has_no_pad(s.drop_first());
        let a = encode_scalar(s[0] as u32);
        let b = encode_utf8(s.drop_first());
        assert(encode_utf8(s) == a + b);
        assert forall|i: int| 0 <= i < encode_utf8(s).len() implies encode_utf8(s)[i] != PAD by {
            if i < a.len() {
                assert((a + b)[i] == a[i]);
            } else {
                assert((a + b)[i] == b[i - a.len()]);
            }
        }
    }
}

proof fn lemma_slot_text(s: Seq<char>, width: nat)
    requires
        fits_slot(s, width),
    ensures
        slot_bytes(s, width).len() == width,
        slot_text(slot_bytes(s, width)) == Some(s),
{
    let f = slot_bytes(s, width);
    let e = encode_utf8(s);
    lemma_utf8_has_no_pad(s);
    assert forall|j: int| 0 <= j < e.len() implies f[j] != PAD by {
        assert(f[j] == e[j]);
    }
    lemma_until_pad(f, e.len() as int);
    assert(f.subrange(0, e.len() as int) =~= e);
    encode_utf8_valid_utf8(s);
}


/// Relies on `String::from_utf8`: it succeeds exactly on UTF-8 input and keeps
/// the bytes it is given.
#[verifier::external_body]
fn string_from_utf8(b: Vec<u8>) -> (r: Option<String>)
    ensures
        r is Some <==> valid_utf8(b@),
        r matches Some(s) ==> encode_utf8(s@) == b@,
{
    String::from_utf8(b).ok()
}

/// Appends the UTF-8 form of `s` to `out`, padded with `PAD` to `width` bytes.
fn push_slot(out: &mut Vec<u8>, s: &String, width: usize)
    requires
        fits_slot(s@, width as nat),
    ensures
        final(out)@ == old(out)@ + slot_bytes(s@, width as nat),
{
    let b = s.as_str().as_bytes();
    let mut i: usize = 0;
    while i < b.len()
        invariant
            b@ == encode_utf8(s@),
            i <= b@.len(),
            out@ == old(out)@ + b@.subrange(0, i as int),
        decreases b@.len() - i,
    {
        out.push(b[i]);
        assert(b@.subrange(0, i as int + 1) =~= b@.subrange(0, i as int).push(b@[i as int]));
        i = i + 1;
    }
    assert(b@.subrange(0, i as int) =~= b@);
    let mut k: usize = b.len();
    while k < width
        invariant
            b@ == encode_utf8(s@),
            b@.len() <= k <= width,
            out@ == old(out)@ + b@ + Seq::new((k - b@.len()) as nat, |j: int| PAD),
        decreases width - k,
    {
        out.push(PAD);
        assert(Seq::new((k + 1 - b@.len()) as nat, |j: int| PAD) =~= Seq::new(
            (k - b@.len()) as nat,
            |j: int| PAD,
        ).push(PAD));
        k = k + 1;
    }
    assert(out@ =~= old(out)@ + slot_bytes(s@, width as nat));
}

/// Why `s` does not fit a slot of `width` bytes, if it does not.
pub(crate) fn check_slot(s: &String, width: usize, f: Field) -> (r: Option<CodecError>)
    ensures
        r == slot_error(s@, width as nat, f),
{
    if s.as_str().as_bytes().len() > width {
        Some(CodecError::FieldTooLong(f))
    } else {
        None
    }
}

/// Encodes a record into its fixed-width form.
pub fn encode(row: &Row) -> (r: Result<Vec<u8>, CodecError>)
    ensures
        match r {
            Ok(b) => encode_error(row@) is None && b@ == encode_spec(row@),
            Err(e) => encode_error(row@) == Some(e),
        },
        r is Ok <==> row_fits(row@),
{
    if let Some(e) = check_slot(&row.username, USERNAME_SIZE, Field::Username) {
        return Err(e);
    }
    if let Some(e) = check_slot(&row.email, EMAIL_SIZE, Field::Email) {
        return Err(e);
    }
    let mut out: Vec<u8> = Vec::new();
    out.push((row.id & 0xff) as u8);
    out.push(((row.id >> 8u32) & 0xff) as u8);
    out.push(((row.id >> 16u32) & 0xff) as u8);
    out.push(((row.id >> 24u32) & 0xff) as u8);
    assert(out@ =~= id_bytes(row.id));
    push_slot(&mut out, &row.username, USERNAME_SIZE);
    push_slot(&mut out, &row.email, EMAIL_SIZE);
    Ok(out)
}

/// The text of the slot `b[start..start + width]`.
fn read_slot(b: &[u8], start: usize, width: usize, f: Field) -> (r: Result<String, CodecError>)
    requires
        start + width <= b@.len(),
    ensures
        match slot_text(b@.subrange(start as int, start + width)) {
            Some(t) => r matches Ok(s) && s@ == t,
            None => r == Err::<String, CodecError>(CodecError::InvalidUtf8(f)),
        },
{
    let ghost slot = b@.subrange(start as int, start + width);
    let mut k: usize = 0;
    let mut content: Vec<u8> = Vec::new();
    let n = b.len();
    while k < width && b[start + k] != PAD
        invariant
            start + width <= b@.len(),
            n == b@.len(),
            slot == b@.subrange(start as int, start + width),
            k <= width,
            forall|j: int| 0 <= j < k ==> slot[j] != PAD,
            content@ == slot.subrange(0, k as int),
        decreases width - k,
    {
        content.push(b[start + k]);
        assert(slot.subrange(0, k as int + 1) =~= slot.subrange(0, k as int).push(slot[k as int]));
        k = k + 1;
    }
    proof {
        lemma_until_pad(slot, k as int);
    }
    match string_from_utf8(content) {
        Some(s) => {
            proof {
                vstd::utf8::encode_utf8_decode_utf8(s@);
            }
            Ok(s)
        },
        None => Err(CodecError::InvalidUtf8(f)),
    }
}

/// Decodes a record from its fixed-width form.
pub fn decode(b: &[u8]) -> (r: Result<Row, CodecError>)
    requires
        b@.len() == ROW_SIZE,
    ensures
        match decode_spec(b@) {
            Ok(m) => r matches Ok(row) && row@ == m,
            Err(e) => r matches Err(x) && x == e,
        },
{
    let id = (b[0] as u32) | ((b[1] as u32) << 8u32) | ((b[2] as u32) << 16u32) | ((b[3] as u32)
        << 24u32);
    let username = match read_slot(b, USERNAME_OFFSET, USERNAME_SIZE, Field::Username) {
        Ok(s) => s,
        Err(e) => return Err(e),
    };
    let email = match read_slot(b, EMAIL_OFFSET, EMAIL_SIZE, Field::Email) {
        Ok(s) => s,
        Err(e) => return Err(e),
    };
    Ok(Row { id, username, email })
}

/// Decoding an encoded record gives the record back, for every record whose
/// text fields fit their slots.
pub proof fn lemma_round_trip(r: RowModel)
    requires
        row_fits(r),
    ensures
        encode_spec(r).len() == ROW_SIZE,
        decode_spec(encode_spec(r)) == Ok::<RowModel, CodecError>(r),
{
    let b = encode_spec(r);
    let u = slot_bytes(r.username, USERNAME_SIZE as nat);
    let e = slot_bytes(r.email, EMAIL_SIZE as nat);
    lemma_slot_text(r.username, USERNAME_SIZE as nat);
    lemma_slot_text(r.email, EMAIL_SIZE as nat);
    lemma_id_bytes(r.id);
    assert(username_slot(b) =~= u);
    assert(email_slot(b) =~= e);
}

/// The capacity constants follow from the page and record sizes: fourteen
/// records in a page, fourteen hundred in the store.
pub proof fn lemma_capacity()
    ensures
        ROWS_PER_PAGE == PAGE_SIZE / ROW_SIZE,
        TABLE_MAX_ROWS == ROWS_PER_PAGE * PAGE_COUNT,
        ROWS_PER_PAGE == 14,
        TABLE_MAX_ROWS == 1400,
        USERNAME_OFFSET == ID_OFFSET + ID_SIZE,
        EMAIL_OFFSET == USERNAME_OFFSET + USERNAME_SIZE,
        ROW_SIZE == EMAIL_OFFSET + EMAIL_SIZE,
{
}

} // verus!
