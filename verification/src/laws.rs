//! Laws that tie the two ends of the wire together: what one side writes,
//! the other reads back.

use vstd::prelude::*;
use crate::accounts::{login_reply_text, LoginOutcome};
use crate::numbers::{all_digits, decimal, digit_char, digits_value, is_digit, numeral_digits, usize_numeral};
use crate::protocol::{
    create_request_text, login_request_text, size_reply_meaning, upload_header_text, SizeReply,
};
use crate::framing::{upload_head_of, upload_head_read_back, upload_mark, upload_request_bytes};
use crate::server::{at_most, chunk_is_complete, chunk_outcome, request_is_complete, request_text, text_outcome, SessionView, ServerAction};
use crate::encoding::{encode_concat, encode_ascii, all_ascii, ascii_bytes};
use crate::protocol::reply_payload;
use vstd::utf8::{decode_utf8, encode_utf8, valid_utf8};
use crate::text::{has_text, is_ws, spaced, texts, words, words_from};
use crate::paths::{last_component, last_pos, pushed};
use crate::protocol::{download_dir, download_target_path, names_download};
use crate::server::{private_dir_text, public_dir, search_dir_text};

verus! {

/// Whether `w` is a word: not empty, and without whitespace.
pub open spec fn is_word(w: Seq<char>) -> bool {
    &&& w.len() > 0
    &&& forall|j: int| 0 <= j < w.len() ==> !is_ws(#[trigger] w[j])
}

/// Whether every character of `t` is whitespace.
pub open spec fn all_ws(t: Seq<char>) -> bool {
    forall|j: int| 0 <= j < t.len() ==> is_ws(#[trigger] t[j])
}

proof fn lemma_words_from_word(a: Seq<char>, rest: Seq<char>, cur: Seq<char>)
    requires
        forall|j: int| 0 <= j < a.len() ==> !is_ws(#[trigger] a[j]),
    ensures
        words_from(a + rest, cur) == words_from(rest, cur + a),
    decreases a.len(),
{
    if a.len() > 0 {
        assert((a + rest).drop_first() =~= a.drop_first() + rest);
        assert(cur.push(a[0]) + a.drop_first() =~= cur + a);
        assert((a + rest)[0] == a[0]);
        lemma_words_from_word(a.drop_first(), rest, cur.push(a[0]));
    } else {
        assert(a + rest =~= rest);
        assert(cur + a =~= cur);
    }
}

proof fn lemma_words_all_ws(t: Seq<char>)
    requires
        all_ws(t),
    ensures
        words_from(t, seq![]) == Seq::<Seq<char>>::empty(),
    decreases t.len(),
{
    if t.len() > 0 {
        lemma_words_all_ws(t.drop_first());
        assert(Seq::<Seq<char>>::empty() + words_from(t.drop_first(), seq![]) =~= Seq::<Seq<char>>::empty());
    }
}

/// A word followed by whitespace and more text splits into that word and the
/// words of the rest.
pub proof fn words_of_word_then_rest(a: Seq<char>, c: char, rest: Seq<char>)
    requires
        is_word(a),
        is_ws(c),
    ensures
        words(a + seq![c] + rest) == seq![a] + words(rest),
{
    let e = Seq::<char>::empty();
    assert(a + seq![c] + rest =~= a + (seq![c] + rest));
    lemma_words_from_word(a, seq![c] + rest, e);
    assert(e + a =~= a);
    assert((seq![c] + rest).drop_first() =~= rest);
    assert((seq![c] + rest)[0] == c);
}

/// A word alone is its only word.
pub proof fn words_of_word(a: Seq<char>)
    requires
        is_word(a),
    ensures
        words(a) == seq![a],
{
    let e = Seq::<char>::empty();
    lemma_words_from_word(a, e, e);
    assert(a + e =~= a);
    assert(e + a =~= a);
}

proof fn lemma_words_from_shape(s: Seq<char>, cur: Seq<char>)
    requires
        forall|j: int| 0 <= j < cur.len() ==> !is_ws(#[trigger] cur[j]),
    ensures
        forall|i: int| 0 <= i < words_from(s, cur).len() ==> is_word(#[trigger] words_from(s, cur)[i]),
    decreases s.len(),
{
    if s.len() == 0 {
        if cur.len() > 0 {
            assert(words_from(s, cur) == seq![cur]);
            assert(is_word(cur));
        }
    } else if is_ws(s[0]) {
        lemma_words_from_shape(s.drop_first(), seq![]);
        let head = if cur.len() == 0 { Seq::<Seq<char>>::empty() } else { seq![cur] };
        let tail = words_from(s.drop_first(), seq![]);
        assert(words_from(s, cur) == head + tail);
        if cur.len() > 0 {
            assert(is_word(cur));
        }
        assert forall|i: int| 0 <= i < (head + tail).len() implies is_word(#[trigger] (head + tail)[i]) by {
            if i >= head.len() {
                assert((head + tail)[i] == tail[i - head.len()]);
            }
        }
    } else {
        let c2 = cur.push(s[0]);
        assert forall|j: int| 0 <= j < c2.len() implies !is_ws(#[trigger] c2[j]) by {
            if j < cur.len() {
                assert(c2[j] == cur[j]);
            }
        }
        lemma_words_from_shape(s.drop_first(), c2);
        assert(words_from(s, cur) == words_from(s.drop_first(), c2));
    }
}

/// Every word that splitting yields is a word: not empty, without whitespace.
pub proof fn words_are_words(s: Seq<char>)
    ensures
        forall|i: int| 0 <= i < words(s).len() ==> is_word(#[trigger] words(s)[i]),
{
    lemma_words_from_shape(s, seq![]);
}

proof fn lemma_spaced_front(v: Seq<Seq<char>>)
    requires
        v.len() >= 1,
    ensures
        spaced(v) == v[0] + seq![' '] + spaced(v.drop_first()),
    decreases v.len(),
{
    if v.len() == 1 {
        assert(v.drop_last() =~= Seq::<Seq<char>>::empty());
        assert(v.drop_first() =~= Seq::<Seq<char>>::empty());
        assert(spaced(v.drop_last()) == Seq::<char>::empty());
        assert(spaced(v.drop_first()) == Seq::<char>::empty());
        assert(v.last() == v[0]);
        assert(spaced(v) =~= v[0] + seq![' ']);
        assert(v[0] + seq![' '] + spaced(v.drop_first()) =~= v[0] + seq![' ']);
    } else {
        lemma_spaced_front(v.drop_last());
        assert(v.drop_last().drop_first() =~= v.drop_first().drop_last());
        assert(v.drop_first().last() == v.last());
        assert(v.drop_last()[0] == v[0]);
        let a = spaced(v.drop_first().drop_last());
        assert(spaced(v) == (v[0] + seq![' '] + a) + v.last() + seq![' ']);
        assert(spaced(v.drop_first()) == a + v.last() + seq![' ']);
        assert((v[0] + seq![' '] + a) + v.last() + seq![' '] =~= v[0] + seq![' '] + (a + v.last()
            + seq![' ']));
    }
}

/// Words written each with a space after them, and then any whitespace, are
/// read back as the same words.
pub proof fn spaced_words_read_back(v: Seq<Seq<char>>, tail: Seq<char>)
    requires
        forall|i: int| 0 <= i < v.len() ==> is_word(#[trigger] v[i]),
        all_ws(tail),
    ensures
        words(spaced(v) + tail) == v,
    decreases v.len(),
{
    if v.len() == 0 {
        assert(spaced(v) + tail =~= tail);
        lemma_words_all_ws(tail);
        assert(v =~= Seq::<Seq<char>>::empty());
    } else {
        lemma_spaced_front(v);
        let rest = v.drop_first();
        assert forall|i: int| 0 <= i < rest.len() implies is_word(#[trigger] rest[i]) by {
            assert(rest[i] == v[i + 1]);
        }
        spaced_words_read_back(rest, tail);
        assert(is_word(v[0]));
        assert(spaced(v) + tail =~= v[0] + seq![' '] + (spaced(rest) + tail));
        words_of_word_then_rest(v[0], ' ', spaced(rest) + tail);
        assert(v =~= seq![v[0]] + rest);
    }
}

/// The words of a command, written as a search or download request, are the
/// words that the server reads out of the request.
pub proof fn command_request_read_back(input: Seq<char>)
    ensures
        words(spaced(words(input))) == words(input),
{
    words_are_words(input);
    spaced_words_read_back(words(input), seq![]);
    assert(spaced(words(input)) + Seq::<char>::empty() =~= spaced(words(input)));
}

/// The names in a search reply are the names that the client reads out of it.
pub proof fn search_reply_read_back(names: Seq<Seq<char>>)
    requires
        forall|i: int| 0 <= i < names.len() ==> is_word(#[trigger] names[i]),
    ensures
        words(spaced(names) + "\n"@) == names,
{
    reveal_strlit("\n");
    assert("\n"@ =~= seq!['\n']);
    spaced_words_read_back(names, "\n"@);
}

/// A login request for the word `user` reads back, on the server, as `login`,
/// the user and the words of the password text.
pub proof fn login_request_read_back(user: Seq<char>, password: Seq<char>)
    requires
        is_word(user),
    ensures
        words(login_request_text(user, password)) == seq!["login"@, user] + words(password),
{
    reveal_strlit("login ");
    reveal_strlit("login");
    reveal_strlit(" ");
    let l = "login"@;
    assert(l =~= seq!['l', 'o', 'g', 'i', 'n']);
    assert(is_word(l));
    assert(login_request_text(user, password) =~= l + seq![' '] + (user + seq![' '] + password));
    words_of_word_then_rest(l, ' ', user + seq![' '] + password);
    words_of_word_then_rest(user, ' ', password);
    assert(seq![l] + (seq![user] + words(password)) =~= seq![l, user] + words(password));
}

/// A create request for the word `user` reads back, on the server, as
/// `create`, the user and the words of the password text.
pub proof fn create_request_read_back(user: Seq<char>, password: Seq<char>)
    requires
        is_word(user),
    ensures
        words(create_request_text(user, password)) == seq!["create"@, user] + words(password),
{
    reveal_strlit("create ");
    reveal_strlit("create");
    reveal_strlit(" ");
    let l = "create"@;
    assert(l =~= seq!['c', 'r', 'e', 'a', 't', 'e']);
    assert(is_word(l));
    assert(create_request_text(user, password) =~= l + seq![' '] + (user + seq![' '] + password));
    words_of_word_then_rest(l, ' ', user + seq![' '] + password);
    words_of_word_then_rest(user, ' ', password);
    assert(seq![l] + (seq![user] + words(password)) =~= seq![l, user] + words(password));
}

proof fn lemma_digit_char(k: nat)
    requires
        k < 10,
    ensures
        is_digit(digit_char(k)),
        crate::numbers::digit_value(digit_char(k)) == k,
        digit_char(k) != '+',
{
}

/// The decimal numeral of a number is a nonempty run of digits, without
/// sign, whose value is the number.
pub proof fn decimal_is_numeral(n: nat)
    ensures
        decimal(n).len() > 0,
        all_digits(decimal(n)),
        decimal(n)[0] != '+',
        digits_value(decimal(n)) == n,
    decreases n,
{
    lemma_digit_char(n % 10);
    if n >= 10 {
        decimal_is_numeral(n / 10);
        let d = decimal(n / 10);
        let e = decimal(n);
        assert(e == d.push(digit_char(n % 10)));
        assert(e.drop_last() =~= d);
        assert forall|i: int| 0 <= i < e.len() implies is_digit(#[trigger] e[i]) by {
            if i < d.len() {
                assert(e[i] == d[i]);
            }
        }
        assert(e[0] == d[0]);
        assert(digits_value(e) == digits_value(d) * 10 + crate::numbers::digit_value(e.last()));
        assert(e.last() == digit_char(n % 10));
        assert(n == (n / 10) * 10 + n % 10);
    } else {
        let e = decimal(n);
        assert(e.drop_last() =~= Seq::<char>::empty());
        assert(digits_value(e.drop_last()) == 0);
        assert(e.last() == digit_char(n));
        assert(digits_value(e) == digits_value(e.drop_last()) * 10 + crate::numbers::digit_value(e.last()));
    }
}

/// The size that the server writes is the size that the client reads back.
pub proof fn size_read_back(n: nat)
    requires
        n <= usize::MAX,
    ensures
        size_reply_meaning(decimal(n)) == SizeReply::Size(n as usize),
{
    decimal_is_numeral(n);
    assert(numeral_digits(decimal(n)) == decimal(n));
    assert(usize_numeral(decimal(n)) == Some(n));
}

/// An upload head for the word `name`, followed by text, reads back on the
/// server as `upload`, `-p` where it is public, the size, the name, and the
/// words of the text.
pub proof fn upload_request_read_back(size: nat, name: Seq<char>, public: bool, data: Seq<char>)
    requires
        is_word(name),
    ensures
        words(upload_header_text(size, name, public) + data) == (if public {
            seq!["upload"@, "-p"@]
        } else {
            seq!["upload"@]
        }) + seq![decimal(size), name] + words(data),
{
    reveal_strlit("upload -p ");
    reveal_strlit("upload ");
    reveal_strlit("upload");
    reveal_strlit("-p");
    reveal_strlit(" ");
    let u = "upload"@;
    let p = "-p"@;
    let d = decimal(size);
    decimal_is_numeral(size);
    assert(u =~= seq!['u', 'p', 'l', 'o', 'a', 'd']);
    assert(p =~= seq!['-', 'p']);
    assert(is_word(u));
    assert(is_word(p));
    assert(is_word(d)) by {
        assert forall|j: int| 0 <= j < d.len() implies !is_ws(#[trigger] d[j]) by {
            assert(is_digit(d[j]));
        }
    }
    let tail = name + seq![' '] + data;
    words_of_word_then_rest(name, ' ', data);
    words_of_word_then_rest(d, ' ', tail);
    let after = d + seq![' '] + tail;
    if public {
        assert(upload_header_text(size, name, public) + data =~= u + seq![' '] + (p + seq![' ']
            + after));
        words_of_word_then_rest(u, ' ', p + seq![' '] + after);
        words_of_word_then_rest(p, ' ', after);
        assert(seq![u] + (seq![p] + (seq![d] + (seq![name] + words(data)))) =~= seq![u, p] + seq![
            d,
            name,
        ] + words(data));
    } else {
        assert(upload_header_text(size, name, public) + data =~= u + seq![' '] + after);
        words_of_word_then_rest(u, ' ', after);
        assert(seq![u] + (seq![d] + (seq![name] + words(data))) =~= seq![u] + seq![d, name] + words(
            data,
        ));
    }
}

/// The client takes a login for accepted exactly when the server accepted it:
/// the server's reply without its final `\n` reads "Login Successful" only for
/// an accepted login.
pub proof fn login_reply_read_back(o: LoginOutcome)
    ensures
        (login_reply_text(o).drop_last() == "Login Successful"@) <==> o == LoginOutcome::Accepted,
{
    reveal_strlit("Login Successful");
    reveal_strlit("Login Successful\n");
    reveal_strlit("Username not found\n");
    reveal_strlit("Hello\n");
    reveal_strlit("Password Incorrect\n");
    let ok = "Login Successful"@;
    match o {
        LoginOutcome::Accepted => {
            assert(login_reply_text(o).drop_last() =~= ok);
        },
        LoginOutcome::UnknownUser => {
            assert(login_reply_text(o).drop_last()[0] != ok[0]);
        },
        LoginOutcome::Unverified => {
            assert(login_reply_text(o).drop_last().len() != ok.len());
        },
        LoginOutcome::Rejected => {
            assert(login_reply_text(o).drop_last()[0] != ok[0]);
        },
    }
}


/// The chunks one after the other.
pub open spec fn concat_all(chunks: Seq<Seq<u8>>) -> Seq<u8>
    decreases chunks.len(),
{
    if chunks.len() == 0 { seq![] } else { chunks[0] + concat_all(chunks.drop_first()) }
}

/// The bytes that the server adds to an upload that awaits `rem` more bytes
/// when the chunks `chunks` arrive one after the other: of each chunk, as
/// many bytes as are still to come.
pub open spec fn delivered(rem: nat, chunks: Seq<Seq<u8>>) -> Seq<u8>
    decreases chunks.len(),
{
    if chunks.len() == 0 {
        seq![]
    } else {
        let t = at_most(rem, chunks[0].len());
        chunks[0].take(t as int) + delivered((rem - t) as nat, chunks.drop_first())
    }
}

/// How many bytes an upload that awaits `rem` more bytes still awaits after
/// the chunks `chunks`.
pub open spec fn left_after(rem: nat, chunks: Seq<Seq<u8>>) -> nat
    decreases chunks.len(),
{
    if chunks.len() == 0 {
        rem
    } else {
        left_after((rem - at_most(rem, chunks[0].len())) as nat, chunks.drop_first())
    }
}

/// Chunks that hold exactly the bytes still to come of an upload deliver
/// those bytes, in order, and leave nothing to come.
pub proof fn chunks_deliver_the_rest(rem: nat, chunks: Seq<Seq<u8>>)
    requires
        concat_all(chunks).len() == rem,
    ensures
        delivered(rem, chunks) == concat_all(chunks),
        left_after(rem, chunks) == 0,
    decreases chunks.len(),
{
    if chunks.len() > 0 {
        let c = chunks[0];
        let rest = chunks.drop_first();
        assert(at_most(rem, c.len()) == c.len());
        assert(c.take(c.len() as int) =~= c);
        chunks_deliver_the_rest((rem - c.len()) as nat, rest);
    }
}

/// Where each chunk after the first is not empty, each one arrives while
/// bytes are still to come, so the server adds it to the upload's file.
pub proof fn later_chunks_are_awaited(rem: nat, chunks: Seq<Seq<u8>>, i: int)
    requires
        concat_all(chunks).len() == rem,
        forall|k: int| 0 <= k < chunks.len() ==> (#[trigger] chunks[k]).len() > 0,
        0 <= i < chunks.len(),
    ensures
        left_after(rem, chunks.take(i)) > 0,
    decreases i,
{
    let c = chunks[0];
    let rest = chunks.drop_first();
    assert(chunks.take(i).len() == i);
    if i == 0 {
        assert(chunks.take(0) =~= Seq::<Seq<u8>>::empty());
        assert(rem == c.len() + concat_all(rest).len());
    } else {
        assert forall|k: int| 0 <= k < rest.len() implies (#[trigger] rest[k]).len() > 0 by {
            assert(rest[k] == chunks[k + 1]);
        }
        later_chunks_are_awaited((rem - c.len()) as nat, rest, i - 1);
        assert(chunks.take(i).drop_first() =~= rest.take(i - 1));
        assert(chunks.take(i)[0] == c);
        assert(at_most(rem, c.len()) == c.len());
    }
}

/// A file uploaded in pieces arrives whole: where the client's upload request
/// for a file of `size` bytes reaches the server as a first chunk that holds
/// the head and the bytes `first`, and then nonempty chunks `later`, and
/// `first` and `later` together hold the file's bytes, the server creates the
/// file with the bytes after the head, adds the later chunks to it in turn,
/// and at the end has written exactly the file's bytes and awaits no more.
pub proof fn uploaded_file_arrives_whole(
    size: nat,
    name: Seq<char>,
    public: bool,
    first: Seq<u8>,
    later: Seq<Seq<u8>>,
)
    requires
        size <= usize::MAX,
        name.len() > 0,
        forall|t: int| 0 <= t < name.len() ==> #[trigger] name[t] != ' ',
        first.len() + concat_all(later).len() == size,
    ensures
        ({
            let chunk = upload_request_bytes(size, name, public, first);
            let h = upload_head_of(chunk)->0;
            let t = at_most(h.size, (chunk.len() - h.data_start) as nat);
            &&& upload_head_of(chunk) is Some
            &&& h.public == public && h.name == name && h.size == size
            &&& chunk.skip(h.data_start as int) + delivered(
                (h.size - t) as nat,
                later,
            ) == first + concat_all(later)
            &&& left_after((h.size - t) as nat, later) == 0
        }),
{
    upload_head_read_back(size, name, public, first);
    let chunk = upload_request_bytes(size, name, public, first);
    let h = upload_head_of(chunk)->0;
    let start = h.data_start as int;
    assert(chunk.len() - start == first.len());
    let t = at_most(h.size, first.len());
    assert(t == first.len());
    assert(chunk.skip(start) =~= first);
    chunks_deliver_the_rest((h.size - t) as nat, later);
}


/// A line that one side writes as text, ending in `\n`, is read back by the
/// other as the same text without the `\n`: its bytes without the last are
/// valid UTF-8 and decode to that text.
pub proof fn reply_line_read_back(x: Seq<char>)
    ensures
        valid_utf8(reply_payload(encode_utf8(x + seq!['\n']))),
        decode_utf8(reply_payload(encode_utf8(x + seq!['\n']))) == x,
{
    encode_concat(x, seq!['\n']);
    assert(all_ascii(seq!['\n']));
    encode_ascii(seq!['\n']);
    assert(ascii_bytes(seq!['\n']) =~= seq![10u8]);
    assert(reply_payload(encode_utf8(x + seq!['\n'])) =~= encode_utf8(x));
    vstd::utf8::encode_utf8_valid_utf8(x);
    vstd::utf8::encode_utf8_decode_utf8(x);
}

/// The size line that the server sends before a file is read by the client,
/// from its bytes, as that size.
pub proof fn size_line_read_back(n: nat)
    requires
        n <= usize::MAX,
    ensures
        valid_utf8(reply_payload(encode_utf8(decimal(n) + "\n"@))),
        size_reply_meaning(decode_utf8(reply_payload(encode_utf8(decimal(n) + "\n"@))))
            == SizeReply::Size(n as usize),
{
    reveal_strlit("\n");
    assert("\n"@ =~= seq!['\n']);
    reply_line_read_back(decimal(n));
    size_read_back(n);
}

/// The client, reading the bytes of the server's login reply, takes the
/// login for accepted exactly when the server accepted it.
pub proof fn login_reply_bytes_read_back(o: LoginOutcome)
    ensures
        valid_utf8(reply_payload(encode_utf8(login_reply_text(o)))),
        (decode_utf8(reply_payload(encode_utf8(login_reply_text(o)))) == "Login Successful"@)
            <==> o == LoginOutcome::Accepted,
{
    reveal_strlit("Login Successful\n");
    reveal_strlit("Username not found\n");
    reveal_strlit("Hello\n");
    reveal_strlit("Password Incorrect\n");
    let t = login_reply_text(o);
    assert(t =~= t.drop_last() + seq!['\n']);
    reply_line_read_back(t.drop_last());
    login_reply_read_back(o);
}

/// The client, reading the bytes of the server's search reply, finds the
/// names that the server listed.
pub proof fn search_reply_bytes_read_back(names: Seq<Seq<char>>)
    requires
        forall|i: int| 0 <= i < names.len() ==> is_word(#[trigger] names[i]),
    ensures
        valid_utf8(reply_payload(encode_utf8(spaced(names) + "\n"@))),
        words(decode_utf8(reply_payload(encode_utf8(spaced(names) + "\n"@)))) == names,
{
    reveal_strlit("\n");
    assert("\n"@ =~= seq!['\n']);
    reply_line_read_back(spaced(names));
    spaced_words_read_back(names, seq![]);
    assert(spaced(names) + Seq::<char>::empty() =~= spaced(names));
}


/// A request that the client writes as text, and whose first character is an
/// ASCII character other than `u`, is read by the server as that text: the
/// server does for its bytes what it does for the words of the text.
pub proof fn text_request_served(s: SessionView, text: Seq<char>, r: ServerAction, s2: SessionView)
    requires
        s.remaining == 0,
        text.len() > 0,
        (text[0] as u32) < 0x80,
        text[0] != 'u',
        chunk_outcome(s, encode_utf8(text), r, s2),
    ensures
        request_text(encode_utf8(text)) == text,
        text_outcome(words(text), s.user, r, s2.user),
{
    let b = encode_utf8(text);
    vstd::utf8::encode_utf8_valid_utf8(text);
    vstd::utf8::encode_utf8_decode_utf8(text);
    assert(text =~= seq![text[0]] + text.drop_first());
    encode_concat(seq![text[0]], text.drop_first());
    assert(all_ascii(seq![text[0]]));
    encode_ascii(seq![text[0]]);
    assert(b[0] == text[0] as u32 as u8);
    vstd::utf8::char_u32_cast(text[0], text[0] as u32);
    assert(b[0] != 117u8) by {
        if b[0] == 117u8 {
            assert((117u32 as char) == 'u');
        }
    }
    if b.len() >= 7 {
        assert(b.take(7)[0] != upload_mark()[0]);
    }
}

/// A login request typed on the client logs the server's connection in as
/// that user, and asks to check the first word of the password text.
pub proof fn login_request_served(
    s: SessionView,
    user: Seq<char>,
    password: Seq<char>,
    r: ServerAction,
    s2: SessionView,
)
    requires
        s.remaining == 0,
        is_word(user),
        words(password).len() >= 1,
        chunk_outcome(s, encode_utf8(login_request_text(user, password)), r, s2),
    ensures
        chunk_is_complete(s, encode_utf8(login_request_text(user, password))),
        r matches ServerAction::Login { user: u, password: p } && u@ == user && p@ == words(password)[0],
        s2.user == user,
{
    reveal_strlit("login ");
    reveal_strlit("login");
    reveal_strlit("upload");
    reveal_strlit("download");
    reveal_strlit("search");
    reveal_strlit("makePublic");
    reveal_strlit("makePrivate");
    reveal_strlit("create");
    let text = login_request_text(user, password);
    assert(text[0] == 'l');
    text_request_served(s, text, r, s2);
    login_request_read_back(user, password);
    let w = words(text);
    assert(w[0] == "login"@);
    assert(w[1] == user);
    assert(w[2] == words(password)[0]);
    assert(request_is_complete(w));
}


/// An upload request reaches the server whole: where its first chunk holds
/// the head and the bytes `first`, the server creates the file that the head
/// names, in the public directory or the user's own, and writes to it all the
/// bytes of `first`; what the size asks beyond them is still to come.
pub proof fn upload_request_served(
    s: SessionView,
    size: nat,
    name: Seq<char>,
    public: bool,
    first: Seq<u8>,
    r: ServerAction,
    s2: SessionView,
)
    requires
        s.remaining == 0,
        size <= usize::MAX,
        name.len() > 0,
        forall|t: int| 0 <= t < name.len() ==> #[trigger] name[t] != ' ',
        chunk_outcome(s, upload_request_bytes(size, name, public, first), r, s2),
    ensures
        chunk_is_complete(s, upload_request_bytes(size, name, public, first)),
        r matches ServerAction::Upload { path, contents } && path@ == (if public {
            crate::paths::pushed(crate::server::public_dir(), name)
        } else {
            crate::paths::pushed(crate::server::private_dir_text(s.user), name)
        }) && contents@ == first,
        s2.remaining == size - at_most(size, first.len()),
        s2.remaining > 0 ==> s2.upload_path == (if public {
            crate::paths::pushed(crate::server::public_dir(), name)
        } else {
            crate::paths::pushed(crate::server::private_dir_text(s.user), name)
        }),
{
    upload_head_read_back(size, name, public, first);
    let chunk = upload_request_bytes(size, name, public, first);
    let h = upload_head_of(chunk)->0;
    let start = h.data_start as int;
    assert(chunk.len() - start == first.len());
    assert(chunk.skip(start) =~= first);
}

/// The bytes that an action writes to a file: those of a new file or of an
/// addition at the end of one; none for any other action.
pub open spec fn written_by(a: ServerAction) -> Seq<u8> {
    match a {
        ServerAction::Upload { contents, .. } => contents@,
        ServerAction::Append { contents, .. } => contents@,
        _ => seq![],
    }
}

/// Whether the action writes to the file at `path`.
pub open spec fn writes_to(a: ServerAction, path: Seq<char>) -> bool {
    match a {
        ServerAction::Upload { path: p, .. } => p@ == path,
        ServerAction::Append { path: p, .. } => p@ == path,
        _ => false,
    }
}

/// The bytes that the actions write, one after the other.
pub open spec fn written_bytes(actions: Seq<ServerAction>) -> Seq<u8>
    decreases actions.len(),
{
    if actions.len() == 0 {
        seq![]
    } else {
        written_bytes(actions.drop_last()) + written_by(actions.last())
    }
}

proof fn lemma_delivered_push(rem: nat, cs: Seq<Seq<u8>>, c: Seq<u8>)
    ensures
        delivered(rem, cs.push(c)) == delivered(rem, cs) + c.take(
            at_most(left_after(rem, cs), c.len()) as int,
        ),
        left_after(rem, cs.push(c)) == left_after(rem, cs) - at_most(left_after(rem, cs), c.len()),
    decreases cs.len(),
{
    if cs.len() == 0 {
        let t = at_most(rem, c.len());
        assert(cs.push(c).drop_first() =~= Seq::<Seq<u8>>::empty());
        assert(cs.push(c)[0] == c);
        assert(delivered((rem - t) as nat, Seq::<Seq<u8>>::empty()) == Seq::<u8>::empty());
        assert(left_after((rem - t) as nat, Seq::<Seq<u8>>::empty()) == rem - t);
        assert(delivered(rem, cs) == Seq::<u8>::empty());
        assert(left_after(rem, cs) == rem);
        assert(delivered(rem, cs.push(c)) == c.take(t as int) + Seq::<u8>::empty());
        assert(c.take(t as int) + Seq::<u8>::empty() =~= Seq::<u8>::empty() + c.take(t as int));
    } else {
        let t = at_most(rem, cs[0].len());
        let rest = cs.drop_first();
        lemma_delivered_push((rem - t) as nat, rest, c);
        assert(cs.push(c).drop_first() =~= rest.push(c));
        assert(cs.push(c)[0] == cs[0]);
        let u = at_most(left_after((rem - t) as nat, rest), c.len());
        assert(delivered(rem, cs.push(c)) == cs[0].take(t as int) + delivered((rem - t) as nat, rest.push(c)));
        assert(left_after(rem, cs) == left_after((rem - t) as nat, rest));
        assert(delivered(rem, cs) == cs[0].take(t as int) + delivered((rem - t) as nat, rest));
        assert(cs[0].take(t as int) + (delivered((rem - t) as nat, rest) + c.take(u as int)) =~= (
        cs[0].take(t as int) + delivered((rem - t) as nat, rest)) + c.take(u as int));
    }
}

/// The steps of an upload after its first chunk: after `k` of the later
/// chunks, the server has written the first bytes and what the `k` chunks
/// delivered, all to `path`, and awaits what is left.
#[verifier::spinoff_prover]
#[verifier::rlimit(40)]
proof fn lemma_upload_steps(
    size: nat,
    path: Seq<char>,
    first: Seq<u8>,
    later: Seq<Seq<u8>>,
    sessions: Seq<SessionView>,
    actions: Seq<ServerAction>,
    k: int,
)
    requires
        first.len() + concat_all(later).len() == size,
        forall|j: int| 0 <= j < later.len() ==> (#[trigger] later[j]).len() > 0,
        sessions.len() == later.len() + 2,
        actions.len() == later.len() + 1,
        actions[0] matches ServerAction::Upload { path: p, contents } && p@ == path && contents@
            == first,
        sessions[1].remaining == size - first.len(),
        sessions[1].remaining > 0 ==> sessions[1].upload_path == path,
        forall|i: int|
            0 <= i < later.len() ==> chunk_outcome(
                #[trigger] sessions[i + 1],
                later[i],
                actions[i + 1],
                sessions[i + 2],
            ),
        0 <= k <= later.len(),
    ensures
        sessions[k + 1].remaining == left_after((size - first.len()) as nat, later.take(k)),
        sessions[k + 1].remaining > 0 ==> sessions[k + 1].upload_path == path,
        written_bytes(actions.take(k + 1)) == first + delivered(
            (size - first.len()) as nat,
            later.take(k),
        ),
        forall|j: int| 0 <= j <= k ==> writes_to(#[trigger] actions[j], path),
        forall|j: int| 0 < j <= k ==> (#[trigger] actions[j]) is Append,
    decreases k,
{
    let rem = (size - first.len()) as nat;
    if k == 0 {
        assert(later.take(0) =~= Seq::<Seq<u8>>::empty());
        assert(actions.take(1).drop_last() =~= Seq::<ServerAction>::empty());
        assert(actions.take(1).last() == actions[0]);
        assert(written_bytes(Seq::<ServerAction>::empty()) == Seq::<u8>::empty());
        assert(written_by(actions[0]) == first);
        assert(written_bytes(actions.take(1)) == Seq::<u8>::empty() + first);
        assert(delivered(rem, Seq::<Seq<u8>>::empty()) == Seq::<u8>::empty());
        assert(Seq::<u8>::empty() + first =~= first + Seq::<u8>::empty());
    } else {
        lemma_upload_steps(size, path, first, later, sessions, actions, k - 1);
        later_chunks_are_awaited(rem, later, k - 1);
        let i = k - 1;
        assert(chunk_outcome(sessions[i + 1], later[i], actions[i + 1], sessions[i + 2]));
        lemma_delivered_push(rem, later.take(i), later[i]);
        assert(later.take(k) =~= later.take(i).push(later[i]));
        assert(actions.take(k + 1).drop_last() =~= actions.take(k));
        assert(actions.take(k + 1).last() == actions[k]);
        let t = at_most(left_after(rem, later.take(i)), later[i].len());
        assert(written_by(actions[k]) == later[i].take(t as int));
        assert(written_bytes(actions.take(k + 1)) == written_bytes(actions.take(k)) + written_by(
            actions[k],
        ));
        assert((first + delivered(rem, later.take(i))) + later[i].take(t as int) =~= first + (
        delivered(rem, later.take(i)) + later[i].take(t as int)));
    }
}

/// A public upload followed by a public download gives the file back. Where
/// the client uploads the bytes of a file named `name` with `-p`, the first
/// chunk that reaches the server holds the head and the bytes `first`, and
/// nonempty chunks `later` bring the rest, the server creates the public file
/// `name` and then adds to it, so that it writes exactly the file's bytes,
/// and awaits no more. A `download -p name` that follows is served from that
/// same file; the size line of those bytes is read by the client as their
/// count; and the client writes them to `name` in its download directory.
/// The server reads each read on its own, so the law asks that its first read
/// of the upload holds the whole head: a first read that ends inside the head
/// is read as a text request instead.
pub proof fn public_upload_then_download(
    name: Seq<char>,
    first: Seq<u8>,
    later: Seq<Seq<u8>>,
    sessions: Seq<SessionView>,
    actions: Seq<ServerAction>,
    r: ServerAction,
    s_end: SessionView,
)
    requires
        is_word(name),
        forall|t: int| 0 <= t < name.len() ==> #[trigger] name[t] != '/',
        first.len() + concat_all(later).len() <= usize::MAX,
        forall|j: int| 0 <= j < later.len() ==> (#[trigger] later[j]).len() > 0,
        sessions.len() == later.len() + 2,
        actions.len() == later.len() + 1,
        sessions[0].remaining == 0,
        chunk_outcome(
            sessions[0],
            upload_request_bytes(first.len() + concat_all(later).len(), name, true, first),
            actions[0],
            sessions[1],
        ),
        forall|i: int|
            0 <= i < later.len() ==> chunk_outcome(
                #[trigger] sessions[i + 1],
                later[i],
                actions[i + 1],
                sessions[i + 2],
            ),
        chunk_outcome(
            sessions[later.len() as int + 1],
            encode_utf8(spaced(seq!["download"@, "-p"@, name])),
            r,
            s_end,
        ),
    ensures
        ({
            let data = first + concat_all(later);
            let p = pushed(public_dir(), name);
            let command = seq!["download"@, "-p"@, name];
            &&& actions[0] is Upload
            &&& forall|j: int| 0 < j < actions.len() ==> (#[trigger] actions[j]) is Append
            &&& forall|j: int| 0 <= j < actions.len() ==> writes_to(#[trigger] actions[j], p)
            &&& written_bytes(actions) == data
            &&& sessions[later.len() as int + 1].remaining == 0
            &&& words(spaced(command)) == command
            &&& r matches ServerAction::Download { path } && path@ == p
            &&& size_reply_meaning(decode_utf8(reply_payload(encode_utf8(decimal(data.len()) + "\n"@))))
                == SizeReply::Size(data.len() as usize)
            &&& names_download(command)
            &&& download_target_path(command) == download_dir() + name
            &&& last_component(download_dir() + name) == name
        }),
{
    let size = first.len() + concat_all(later).len();
    let data = first + concat_all(later);
    let p = pushed(public_dir(), name);
    let n = later.len() as int;
    assert forall|t: int| 0 <= t < name.len() implies #[trigger] name[t] != ' ' by {
        assert(!is_ws(name[t]));
    }
    upload_request_served(sessions[0], size, name, true, first, actions[0], sessions[1]);
    assert(first.take(first.len() as int) =~= first);
    lemma_upload_steps(size, p, first, later, sessions, actions, n);
    assert(later.take(n) =~= later);
    assert(actions.take(n + 1) =~= actions);
    chunks_deliver_the_rest((size - first.len()) as nat, later);
    // the download request
    reveal_strlit("download");
    reveal_strlit("-p");
    reveal_strlit("upload");
    reveal_strlit("search");
    reveal_strlit("makePublic");
    reveal_strlit("makePrivate");
    reveal_strlit("login");
    reveal_strlit("create");
    let command = seq!["download"@, "-p"@, name];
    assert(is_word(command[0]));
    assert(is_word(command[1]));
    assert(is_word(command[2]));
    spaced_words_read_back(command, seq![]);
    let text = spaced(command);
    assert(text + Seq::<char>::empty() =~= text);
    lemma_spaced_front(command);
    assert(text[0] == 'd');
    text_request_served(sessions[n + 1], text, r, s_end);
    size_line_read_back(data.len());
    // the client's side
    reveal_strlit("../client_dir/");
    lemma_last_pos_after_dir(name);
}

proof fn lemma_last_pos_after_dir(name: Seq<char>)
    requires
        name.len() > 0,
        forall|t: int| 0 <= t < name.len() ==> #[trigger] name[t] != '/',
    ensures
        last_component(download_dir() + name) == name,
{
    reveal_strlit("../client_dir/");
    let d = download_dir();
    let s = d + name;
    assert(d.len() == 14);
    assert(d[13] == '/');
    lemma_last_pos_suffix(d, name, '/');
    assert(s.skip(14) =~= name);
}

/// Where `b` holds no `c`, the last `c` of `a + b` is the last of `a`.
proof fn lemma_last_pos_suffix(a: Seq<char>, b: Seq<char>, c: char)
    requires
        forall|t: int| 0 <= t < b.len() ==> #[trigger] b[t] != c,
    ensures
        last_pos(a + b, c) == last_pos(a, c),
    decreases b.len(),
{
    if b.len() > 0 {
        assert((a + b).drop_last() =~= a + b.drop_last());
        assert((a + b).last() == b.last());
        lemma_last_pos_suffix(a, b.drop_last(), c);
    } else {
        assert(a + b =~= a);
    }
}

proof fn lemma_request_kinds_differ()
    ensures
        "upload"@ != "download"@,
        "upload"@ != "search"@,
        "upload"@ != "makePublic"@,
        "upload"@ != "makePrivate"@,
        "download"@ != "search"@,
        "download"@ != "makePublic"@,
        "download"@ != "makePrivate"@,
        "search"@ != "makePublic"@,
        "search"@ != "makePrivate"@,
        "makePublic"@ != "makePrivate"@,
        "login"@ != "upload"@,
        "login"@ != "download"@,
        "login"@ != "search"@,
        "login"@ != "makePublic"@,
        "login"@ != "makePrivate"@,
        "create"@ != "upload"@,
        "create"@ != "download"@,
        "create"@ != "search"@,
        "create"@ != "makePublic"@,
        "create"@ != "makePrivate"@,
{
    reveal_strlit("upload");
    reveal_strlit("download");
    reveal_strlit("search");
    reveal_strlit("makePublic");
    reveal_strlit("makePrivate");
    reveal_strlit("login");
    reveal_strlit("create");
    assert("upload"@.len() == 6 && "download"@.len() == 8 && "search"@.len() == 6);
    assert("makePublic"@.len() == 10 && "makePrivate"@.len() == 11);
    assert("login"@.len() == 5 && "create"@.len() == 6);
    assert("upload"@[0] != "search"@[0]);
    assert("upload"@[0] != "create"@[0]);
    assert("search"@[0] != "create"@[0]);
}

/// Where the client writes the words of a command, each followed by a space,
/// and the first word starts with an ASCII character other than `u`, the
/// server reads the request whole and sees those words.
proof fn lemma_spaced_request_read(s: SessionView, command: Seq<Seq<char>>)
    requires
        s.remaining == 0,
        command.len() >= 1,
        forall|i: int| 0 <= i < command.len() ==> is_word(#[trigger] command[i]),
        (command[0][0] as u32) < 0x80,
        command[0][0] != 'u',
    ensures
        request_text(encode_utf8(spaced(command))) == spaced(command),
        words(spaced(command)) == command,
        upload_head_of(encode_utf8(spaced(command))) is None,
        spaced(command).len() > 0,
        spaced(command)[0] == command[0][0],
{
    let text = spaced(command);
    spaced_words_read_back(command, seq![]);
    assert(text + Seq::<char>::empty() =~= text);
    lemma_spaced_front(command);
    assert(is_word(command[0]));
    assert(text[0] == command[0][0]);
    vstd::utf8::encode_utf8_valid_utf8(text);
    vstd::utf8::encode_utf8_decode_utf8(text);
    let b = encode_utf8(text);
    assert(text =~= seq![text[0]] + text.drop_first());
    encode_concat(seq![text[0]], text.drop_first());
    assert(all_ascii(seq![text[0]]));
    encode_ascii(seq![text[0]]);
    vstd::utf8::char_u32_cast(text[0], text[0] as u32);
    assert(b[0] != 117u8) by {
        if b[0] == 117u8 {
            assert((117u32 as char) == 'u');
        }
    }
    if b.len() >= 7 {
        assert(b.take(7)[0] != upload_mark()[0]);
    }
}

/// Every search that the client sends is served: the server reads the
/// request whole (so it never refuses it as incomplete), searches the public
/// directory where the command holds `-p` and else the user's own, with the
/// command's words, and the connection stays as it was.
pub proof fn client_search_request_is_served(
    s: SessionView,
    command: Seq<Seq<char>>,
    r: ServerAction,
    s2: SessionView,
)
    requires
        s.remaining == 0,
        command.len() >= 1,
        command[0] == "search"@,
        forall|i: int| 0 <= i < command.len() ==> is_word(#[trigger] command[i]),
    ensures
        chunk_is_complete(s, encode_utf8(spaced(command))),
        chunk_outcome(s, encode_utf8(spaced(command)), r, s2) ==> {
            &&& r matches ServerAction::Search { dir, command: c } && texts(c@) == command && dir@
                == (if has_text(command, "-p"@) {
                public_dir()
            } else {
                private_dir_text(s.user) + "/"@
            })
            &&& s2.user == s.user
            &&& s2.remaining == 0
        },
{
    reveal_strlit("search");
    lemma_request_kinds_differ();
    lemma_spaced_request_read(s, command);
    if chunk_outcome(s, encode_utf8(spaced(command)), r, s2) {
        text_request_served(s, spaced(command), r, s2);
    }
}

/// Every download that the client sends is served: where the command names
/// its file (a second word, and a third after `-p`), the server reads the
/// request whole and sends the file named by the third word from the public
/// directory where the second is `-p`, else the one named by the second word
/// from the user's own directory.
pub proof fn client_download_request_is_served(
    s: SessionView,
    command: Seq<Seq<char>>,
    r: ServerAction,
    s2: SessionView,
)
    requires
        s.remaining == 0,
        command.len() >= 2,
        command[0] == "download"@,
        command[1] == "-p"@ ==> command.len() >= 3,
        forall|i: int| 0 <= i < command.len() ==> is_word(#[trigger] command[i]),
    ensures
        chunk_is_complete(s, encode_utf8(spaced(command))),
        chunk_outcome(s, encode_utf8(spaced(command)), r, s2) ==> {
            &&& r matches ServerAction::Download { path } && path@ == (if command[1] == "-p"@ {
                pushed(public_dir(), command[2])
            } else {
                pushed(private_dir_text(s.user), command[1])
            })
            &&& s2.user == s.user
            &&& s2.remaining == 0
        },
{
    reveal_strlit("download");
    lemma_request_kinds_differ();
    lemma_spaced_request_read(s, command);
    if chunk_outcome(s, encode_utf8(spaced(command)), r, s2) {
        text_request_served(s, spaced(command), r, s2);
    }
}

/// A `makePublic` of a file name that the client sends copies the user's own
/// file of that name to the public directory, and a `makePrivate` copies the
/// public file back to the user's own directory; neither the other way round.
pub proof fn client_visibility_requests_are_served(
    s: SessionView,
    name: Seq<char>,
    public: bool,
    r: ServerAction,
    s2: SessionView,
)
    requires
        s.remaining == 0,
        is_word(name),
    ensures
        ({
            let text = if public { "makePublic "@ + name } else { "makePrivate "@ + name };
            let own = pushed(private_dir_text(s.user), name);
            let shared = pushed(public_dir(), name);
            &&& chunk_is_complete(s, encode_utf8(text))
            &&& chunk_outcome(s, encode_utf8(text), r, s2) ==> {
                &&& r matches ServerAction::Copy { from, to } && (if public {
                    from@ == own && to@ == shared
                } else {
                    from@ == shared && to@ == own
                })
                &&& s2.user == s.user
                &&& s2.remaining == 0
            }
        }),
{
    reveal_strlit("makePublic ");
    reveal_strlit("makePrivate ");
    reveal_strlit("makePublic");
    reveal_strlit("makePrivate");
    reveal_strlit(" ");
    lemma_request_kinds_differ();
    let kind = if public { "makePublic"@ } else { "makePrivate"@ };
    let text = if public { "makePublic "@ + name } else { "makePrivate "@ + name };
    assert(is_word(kind));
    words_of_word_then_rest(kind, ' ', name);
    words_of_word(name);
    assert(text =~= kind + seq![' '] + name);
    assert(seq![kind] + seq![name] =~= seq![kind, name]);
    let command = seq![kind, name];
    vstd::utf8::encode_utf8_valid_utf8(text);
    vstd::utf8::encode_utf8_decode_utf8(text);
    let b = encode_utf8(text);
    assert(text =~= seq![text[0]] + text.drop_first());
    encode_concat(seq![text[0]], text.drop_first());
    assert(all_ascii(seq![text[0]]));
    encode_ascii(seq![text[0]]);
    assert(b[0] == 109u8);
    if b.len() >= 7 {
        assert(b.take(7)[0] != upload_mark()[0]);
    }
    if chunk_outcome(s, b, r, s2) {
        text_request_served(s, text, r, s2);
    }
}

} // verus!
