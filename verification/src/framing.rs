//! The framing of an upload: the head `upload [-p ]<size> <name> ` that the
//! client writes before the file's bytes, and how the server finds the name,
//! the size and where the bytes begin.

use vstd::prelude::*;
use vstd::utf8::{decode_utf8, encode_utf8, valid_utf8};
use crate::protocol::{upload_header, upload_header_text};
use crate::encoding::{all_ascii, ascii_bytes, encode_ascii, encode_avoids_ascii, encode_concat};
use crate::numbers::{decimal, digits_value, is_digit};
use crate::text::decode_utf8_text;

verus! {

/// Whether `b` is the code of an ASCII digit.
pub open spec fn is_digit_byte(b: u8) -> bool {
    48 <= b && b <= 57
}

/// The number of ASCII digits that `s` begins with.
pub open spec fn digit_run(s: Seq<u8>) -> nat
    decreases s.len(),
{
    if s.len() > 0 && is_digit_byte(s[0]) { 1 + digit_run(s.drop_first()) } else { 0 }
}

/// The number of bytes that `s` begins with before its first space.
pub open spec fn field_len(s: Seq<u8>) -> nat
    decreases s.len(),
{
    if s.len() > 0 && s[0] != 32 { 1 + field_len(s.drop_first()) } else { 0 }
}

/// The value of a run of ASCII digits.
pub open spec fn bytes_value(d: Seq<u8>) -> nat
    decreases d.len(),
{
    if d.len() == 0 { 0 } else { bytes_value(d.drop_last()) * 10 + (d.last() - 48) as nat }
}

/// The bytes `upload `.
pub open spec fn upload_mark() -> Seq<u8> {
    seq![117u8, 112, 108, 111, 97, 100, 32]
}

/// The bytes `-p `.
pub open spec fn public_mark() -> Seq<u8> {
    seq![45u8, 112, 32]
}

/// What the head of an upload says: whether it is public, the size of the
/// file, its name, and where its bytes begin.
pub struct HeadView {
    pub public: bool,
    pub size: nat,
    pub name: Seq<char>,
    pub data_start: nat,
}

/// The head that `b` begins with, if any: `upload `, then `-p ` for a public
/// upload, then ASCII digits for the size, which must fit in `usize`, a space,
/// the name (one or more bytes other than space, valid UTF-8), and a space.
pub open spec fn upload_head_of(b: Seq<u8>) -> Option<HeadView> {
    if b.len() < 7 || b.take(7) != upload_mark() {
        None
    } else {
        let public = b.len() >= 10 && b.subrange(7, 10) == public_mark();
        let i = if public { 10int } else { 7int };
        let j = i + digit_run(b.skip(i));
        if j == i || j >= b.len() || b[j] != 32 || bytes_value(b.subrange(i, j)) > usize::MAX {
            None
        } else {
            let k = j + 1 + field_len(b.skip(j + 1));
            if k == j + 1 || k >= b.len() || !valid_utf8(b.subrange(j + 1, k)) {
                None
            } else {
                Some(
                    HeadView {
                        public,
                        size: bytes_value(b.subrange(i, j)),
                        name: decode_utf8(b.subrange(j + 1, k)),
                        data_start: (k + 1) as nat,
                    },
                )
            }
        }
    }
}

/// The head of an upload, as the server reads it.
pub struct UploadHead {
    pub public: bool,
    pub size: usize,
    pub name: String,
    pub data_start: usize,
}

/// Whether `h` is what the head view `v` says.
pub open spec fn head_is(h: UploadHead, v: HeadView) -> bool {
    &&& h.public == v.public
    &&& h.size as nat == v.size
    &&& h.name@ == v.name
    &&& h.data_start as nat == v.data_start
}

proof fn lemma_bytes_value_prefix(s: Seq<u8>, j: int, k: int)
    requires
        0 <= j <= k <= s.len(),
    ensures
        bytes_value(s.take(j)) <= bytes_value(s.take(k)),
    decreases k - j,
{
    if j < k {
        lemma_bytes_value_prefix(s, j, k - 1);
        assert(s.take(k).drop_last() =~= s.take(k - 1));
    }
}

/// Reads the head of an upload from the bytes of a request.
pub fn parse_upload_head(b: &[u8]) -> (r: Option<UploadHead>)
    ensures
        match r {
            Some(h) => upload_head_of(b@) matches Some(v) && head_is(h, v),
            None => upload_head_of(b@) is None,
        },
{
    let n = b.len();
    if n < 7 || b[0] != 117 || b[1] != 112 || b[2] != 108 || b[3] != 111 || b[4] != 97 || b[5]
        != 100 || b[6] != 32 {
        assert(n >= 7 ==> b@.take(7)[0] == b@[0] && b@.take(7)[1] == b@[1] && b@.take(7)[2] == b@[2]
            && b@.take(7)[3] == b@[3] && b@.take(7)[4] == b@[4] && b@.take(7)[5] == b@[5] && b@.take(7)[6] == b@[6]);
        return None;
    }
    assert(b@.take(7) =~= upload_mark());
    let public = n >= 10 && b[7] == 45 && b[8] == 112 && b[9] == 32;
    assert(public <==> (b@.len() >= 10 && b@.subrange(7, 10) == public_mark())) by {
        if b@.len() >= 10 && b@.subrange(7, 10) == public_mark() {
            assert(b@.subrange(7, 10)[0] == b@[7]);
            assert(b@.subrange(7, 10)[1] == b@[8]);
            assert(b@.subrange(7, 10)[2] == b@[9]);
        }
        if public {
            assert(b@.subrange(7, 10) =~= public_mark());
        }
    }
    let i: usize = if public { 10 } else { 7 };
    // the size
    let mut j: usize = i;
    let mut value: usize = 0;
    let mut fits = true;
    assert(b@.skip(i as int) =~= b@.skip(j as int));
    assert(b@.subrange(i as int, i as int) =~= Seq::<u8>::empty());
    while j < n && 48 <= b[j] && b[j] <= 57
        invariant
            n == b@.len(),
            i <= j <= n,
            digit_run(b@.skip(i as int)) == (j - i) + digit_run(b@.skip(j as int)),
            forall|t: int| i <= t < j ==> is_digit_byte(#[trigger] b@[t]),
            fits ==> value as nat == bytes_value(b@.subrange(i as int, j as int)),
            !fits ==> bytes_value(b@.subrange(i as int, j as int)) > usize::MAX,
        decreases n - j,
    {
        assert(b@.skip(j as int).drop_first() =~= b@.skip(j + 1));
        let ghost prev = b@.subrange(i as int, j as int);
        assert(b@.subrange(i as int, j + 1).drop_last() =~= prev);
        let dv = (b[j] - 48) as usize;
        if fits {
            if value > (usize::MAX - dv) / 10 {
                assert(bytes_value(b@.subrange(i as int, j + 1)) > usize::MAX) by (nonlinear_arith)
                    requires
                        value > (usize::MAX - dv) / 10,
                        bytes_value(b@.subrange(i as int, j + 1)) == value * 10 + dv,
                        dv <= 9,
                ;
                fits = false;
            } else {
                assert(value * 10 + dv <= usize::MAX) by (nonlinear_arith)
                    requires
                        value <= (usize::MAX - dv) / 10,
                        dv <= 9,
                ;
                value = value * 10 + dv;
            }
        } else {
            proof {
                lemma_bytes_value_prefix(b@.subrange(i as int, j + 1), (j - i) as int, (j + 1 - i) as int);
                assert(b@.subrange(i as int, j + 1).take((j - i) as int) =~= prev);
                assert(b@.subrange(i as int, j + 1).take((j + 1 - i) as int) =~= b@.subrange(i as int, j + 1));
            }
        }
        j = j + 1;
    }
    assert(digit_run(b@.skip(j as int)) == 0);
    if j == i || j >= n || b[j] != 32 || !fits {
        return None;
    }
    // the name
    let mut k: usize = j + 1;
    assert(b@.skip(j + 1) =~= b@.skip(k as int));
    while k < n && b[k] != 32
        invariant
            n == b@.len(),
            j + 1 <= k <= n,
            field_len(b@.skip(j + 1)) == (k - j - 1) + field_len(b@.skip(k as int)),
        decreases n - k,
    {
        assert(b@.skip(k as int).drop_first() =~= b@.skip(k + 1));
        k = k + 1;
    }
    assert(field_len(b@.skip(k as int)) == 0);
    if k == j + 1 || k >= n {
        return None;
    }
    let name_bytes = vstd::slice::slice_subrange(b, j + 1, k);
    match decode_utf8_text(name_bytes) {
        None => None,
        Some(name) => Some(UploadHead { public, size: value, name, data_start: k + 1 }),
    }
}

/// The bytes of an upload request: the head, then the file's bytes.
pub open spec fn upload_request_bytes(size: nat, name: Seq<char>, public: bool, data: Seq<u8>) -> Seq<u8> {
    encode_utf8(upload_header_text(size, name, public)) + data
}

/// The request that uploads the bytes `data` of the file named `name`.
pub fn upload_request(name: &str, public: bool, data: &[u8]) -> (r: Vec<u8>)
    requires
        data@.len() <= u64::MAX,
    ensures
        r@ == upload_request_bytes(data@.len(), name@, public, data@),
{
    let header = upload_header(data.len() as u64, name, public);
    let mut out = vstd::slice::slice_to_vec(header.as_str().as_bytes());
    let mut i: usize = 0;
    let ghost start = out@;
    while i < data.len()
        invariant
            i <= data@.len(),
            out@ == start + data@.take(i as int),
        decreases data.len() - i,
    {
        out.push(data[i]);
        assert(data@.take(i + 1) =~= data@.take(i as int).push(data@[i as int]));
        assert(out@ =~= start + data@.take(i + 1));
        i = i + 1;
    }
    assert(data@.take(data@.len() as int) =~= data@);
    out
}


proof fn lemma_digit_run_concat(x: Seq<u8>, y: Seq<u8>)
    requires
        forall|t: int| 0 <= t < x.len() ==> is_digit_byte(#[trigger] x[t]),
        y.len() > 0,
        !is_digit_byte(y[0]),
    ensures
        digit_run(x + y) == x.len(),
    decreases x.len(),
{
    if x.len() > 0 {
        assert((x + y).drop_first() =~= x.drop_first() + y);
        assert((x + y)[0] == x[0]);
        lemma_digit_run_concat(x.drop_first(), y);
    } else {
        assert(x + y =~= y);
    }
}

proof fn lemma_field_len_concat(x: Seq<u8>, y: Seq<u8>)
    requires
        forall|t: int| 0 <= t < x.len() ==> #[trigger] x[t] != 32,
        y.len() > 0,
        y[0] == 32,
    ensures
        field_len(x + y) == x.len(),
    decreases x.len(),
{
    if x.len() > 0 {
        assert((x + y).drop_first() =~= x.drop_first() + y);
        assert((x + y)[0] == x[0]);
        lemma_field_len_concat(x.drop_first(), y);
    } else {
        assert(x + y =~= y);
    }
}

proof fn lemma_bytes_value_ascii(d: Seq<char>)
    requires
        forall|t: int| 0 <= t < d.len() ==> is_digit(#[trigger] d[t]),
    ensures
        bytes_value(ascii_bytes(d)) == digits_value(d),
        forall|t: int| 0 <= t < ascii_bytes(d).len() ==> is_digit_byte(#[trigger] ascii_bytes(d)[t]),
    decreases d.len(),
{
    if d.len() > 0 {
        assert(ascii_bytes(d).drop_last() =~= ascii_bytes(d.drop_last()));
        lemma_bytes_value_ascii(d.drop_last());
        assert(is_digit(d.last()));
        assert(ascii_bytes(d).last() == d.last() as u32 as u8);
    } else {
        assert(ascii_bytes(d) =~= Seq::<u8>::empty());
    }
}

proof fn lemma_decimal_digits(n: nat)
    ensures
        decimal(n).len() > 0,
        forall|t: int| 0 <= t < decimal(n).len() ==> is_digit(#[trigger] decimal(n)[t]),
        digits_value(decimal(n)) == n,
{
    crate::laws::decimal_is_numeral(n);
}

/// The bytes of the head of an upload, piece by piece: the mark, the digits
/// of the size, a space, the name's encoding, a space.
proof fn lemma_head_bytes(size: nat, name: Seq<char>, public: bool) -> (parts: (Seq<u8>, Seq<u8>))
    requires
        name.len() > 0,
        forall|t: int| 0 <= t < name.len() ==> #[trigger] name[t] != ' ',
    ensures
        encode_utf8(upload_header_text(size, name, public)) == (if public {
            upload_mark() + public_mark()
        } else {
            upload_mark()
        }) + (parts.0 + (seq![32u8] + (parts.1 + seq![32u8]))),
        parts.0.len() > 0,
        forall|t: int| 0 <= t < parts.0.len() ==> is_digit_byte(#[trigger] parts.0[t]),
        bytes_value(parts.0) == size,
        parts.1 == encode_utf8(name),
        parts.1.len() > 0,
        forall|t: int| 0 <= t < parts.1.len() ==> #[trigger] parts.1[t] != 32,
        valid_utf8(parts.1),
        decode_utf8(parts.1) == name,
{
    reveal_strlit("upload -p ");
    reveal_strlit("upload ");
    reveal_strlit(" ");
    let lead = if public { "upload -p "@ } else { "upload "@ };
    let d = decimal(size);
    let sp = " "@;
    assert(sp =~= seq![' ']);
    lemma_decimal_digits(size);
    let h = upload_header_text(size, name, public);
    assert(h =~= lead + (d + (sp + (name + sp))));
    encode_concat(lead, d + (sp + (name + sp)));
    encode_concat(d, sp + (name + sp));
    encode_concat(sp, name + sp);
    encode_concat(name, sp);
    assert(all_ascii(lead));
    encode_ascii(lead);
    assert forall|t: int| 0 <= t < d.len() implies (#[trigger] d[t] as u32) < 0x80 by {
        assert(is_digit(d[t]));
    }
    encode_ascii(d);
    assert(all_ascii(sp));
    encode_ascii(sp);
    assert(ascii_bytes(sp) =~= seq![32u8]);
    if public {
        assert(ascii_bytes(lead) =~= upload_mark() + public_mark());
    } else {
        assert(ascii_bytes(lead) =~= upload_mark());
    }
    let nb = encode_utf8(name);
    lemma_bytes_value_ascii(d);
    assert forall|t: int| 0 <= t < name.len() implies (#[trigger] name[t] as u32) != 32u8 as u32 by {
        vstd::utf8::char_u32_cast(name[t], name[t] as u32);
        assert((32u32 as char) == ' ');
    }
    encode_avoids_ascii(name, 32);
    vstd::utf8::encode_utf8_valid_utf8(name);
    vstd::utf8::encode_utf8_decode_utf8(name);
    assert(nb.len() > 0) by {
        assert(nb == vstd::utf8::encode_scalar(name[0] as u32) + encode_utf8(name.drop_first()));
        vstd::utf8::char_is_scalar(name[0]);
    }
    (ascii_bytes(d), nb)
}

/// The head that the client writes is the head that the server reads: for a
/// size that fits in `usize` and a nonempty name without spaces, the server
/// finds the same public mark, size and name, and the file's bytes right
/// after the head.
pub proof fn upload_head_read_back(size: nat, name: Seq<char>, public: bool, data: Seq<u8>)
    requires
        size <= usize::MAX,
        name.len() > 0,
        forall|t: int| 0 <= t < name.len() ==> #[trigger] name[t] != ' ',
    ensures
        upload_head_of(upload_request_bytes(size, name, public, data)) == Some(
            HeadView {
                public,
                size,
                name,
                data_start: encode_utf8(upload_header_text(size, name, public)).len(),
            },
        ),
{
    let (db, nb) = lemma_head_bytes(size, name, public);
    let mb = if public { upload_mark() + public_mark() } else { upload_mark() };
    let spb = seq![32u8];
    let eh = encode_utf8(upload_header_text(size, name, public));
    let b = eh + data;
    let i: int = if public { 10 } else { 7 };
    assert(mb.len() == i);
    assert(b =~= mb + (db + (spb + (nb + (spb + data)))));
    assert(b.take(7) =~= upload_mark());
    // the public mark
    if public {
        assert(b.subrange(7, 10) =~= public_mark());
    } else {
        assert(b[7] == db[0]);
        assert(is_digit_byte(db[0]));
        if b.len() >= 10 {
            assert(b.subrange(7, 10)[0] != public_mark()[0]);
        }
    }
    assert((b.len() >= 10 && b.subrange(7, 10) == public_mark()) == public);
    // the size
    let rest1 = spb + (nb + (spb + data));
    assert(b.skip(i) =~= db + rest1);
    lemma_digit_run_concat(db, rest1);
    let j = i + db.len();
    assert(b[j] == 32);
    assert(b.subrange(i, j) =~= db);
    // the name
    let rest2 = spb + data;
    assert(b.skip(j + 1) =~= nb + rest2);
    lemma_field_len_concat(nb, rest2);
    let k = j + 1 + nb.len();
    assert(b.subrange(j + 1, k) =~= nb);
    assert(k + 1 == eh.len());
}

} // verus!
