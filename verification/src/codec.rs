//! The persistence codec: a whole note collection as one byte blob.
//!
//! Counts and lengths are eight little-endian bytes; each character is
//! its Unicode scalar value in four little-endian bytes. Decoding
//! inverts encoding exactly, and rejects anything else.

use vstd::bytes::{
    lemma_auto_spec_u32_to_from_le_bytes, lemma_auto_spec_u64_to_from_le_bytes,
    spec_u32_from_le_bytes, spec_u32_to_le_bytes, spec_u64_from_le_bytes, spec_u64_to_le_bytes,
    u32_from_le_bytes, u32_to_le_bytes, u64_from_le_bytes, u64_to_le_bytes,
};
use vstd::prelude::*;
use vstd::slice::slice_subrange;
use vstd::utf8::{char_is_scalar, char_u32_cast, is_scalar};

use crate::errors::NotesError;
use crate::note::{Note, NoteView};
use crate::tags::{Tag, Tags};
use crate::text::{char_from_u32, push_char};

verus! {

// ------------------------------------------------------------------
// What the bytes of an encoded collection are.
// ------------------------------------------------------------------
/// The characters of a text, four bytes each, in order.
pub open spec fn enc_chars(s: Seq<char>) -> Seq<u8>
    decreases s.len(),
{
    if s.len() == 0 {
        Seq::<u8>::empty()
    } else {
        spec_u32_to_le_bytes(s[0] as u32) + enc_chars(s.drop_first())
    }
}

/// A text: its character count, then its characters.
pub open spec fn enc_string(s: Seq<char>) -> Seq<u8> {
    spec_u64_to_le_bytes(s.len() as u64) + enc_chars(s)
}

/// Texts back to back, each as `enc_string`.
pub open spec fn enc_strings(ts: Seq<Seq<char>>) -> Seq<u8>
    decreases ts.len(),
{
    if ts.len() == 0 {
        Seq::<u8>::empty()
    } else {
        enc_string(ts[0]) + enc_strings(ts.drop_first())
    }
}

/// One note: its creation time, its tag count and tags, its content,
/// its description.
pub open spec fn enc_note(n: NoteView) -> Seq<u8> {
    enc_string(n.created) + spec_u64_to_le_bytes(n.tags.len() as u64) + enc_strings(n.tags)
        + enc_string(n.content) + enc_string(n.desc)
}

/// Notes back to back, each as `enc_note`.
pub open spec fn enc_notes(v: Seq<NoteView>) -> Seq<u8>
    decreases v.len(),
{
    if v.len() == 0 {
        Seq::<u8>::empty()
    } else {
        enc_note(v[0]) + enc_notes(v.drop_first())
    }
}

/// The whole blob: the note count, then the notes.
pub open spec fn spec_encode(v: Seq<NoteView>) -> Seq<u8> {
    spec_u64_to_le_bytes(v.len() as u64) + enc_notes(v)
}

/// A text whose length its eight count bytes can carry.
pub open spec fn str_fits(s: Seq<char>) -> bool {
    s.len() <= u64::MAX
}

/// A note all of whose parts fit their count bytes.
pub open spec fn note_fits(n: NoteView) -> bool {
    &&& str_fits(n.created)
    &&& n.tags.len() <= u64::MAX
    &&& (forall|i: int| 0 <= i < n.tags.len() ==> str_fits(#[trigger] n.tags[i]))
    &&& str_fits(n.content)
    &&& str_fits(n.desc)
}

/// A collection all of whose notes fit, and whose count does.
pub open spec fn notes_fit(v: Seq<NoteView>) -> bool {
    &&& v.len() <= u64::MAX
    &&& (forall|i: int| 0 <= i < v.len() ==> note_fits(#[trigger] v[i]))
}

// ------------------------------------------------------------------
// What a byte sequence decodes to: each step yields the value and the
// bytes that remain, or nothing when the bytes do not fit the format.
// ------------------------------------------------------------------
/// Eight count bytes off the front.
pub open spec fn dec_u64(b: Seq<u8>) -> Option<(u64, Seq<u8>)> {
    if b.len() >= 8 {
        Some((spec_u64_from_le_bytes(b.take(8)), b.skip(8)))
    } else {
        None
    }
}

/// Four bytes off the front, as a character; a value that is no Unicode
/// scalar is rejected.
pub open spec fn dec_char(b: Seq<u8>) -> Option<(char, Seq<u8>)> {
    if b.len() >= 4 {
        if is_scalar(spec_u32_from_le_bytes(b.take(4))) {
            Some((spec_u32_from_le_bytes(b.take(4)) as char, b.skip(4)))
        } else {
            None
        }
    } else {
        None
    }
}

/// `n` characters off the front.
pub open spec fn dec_chars(n: nat, b: Seq<u8>) -> Option<(Seq<char>, Seq<u8>)>
    decreases n,
{
    if n == 0 {
        Some((Seq::<char>::empty(), b))
    } else {
        match dec_char(b) {
            Option::None => None,
            Option::Some((c, rest)) => match dec_chars((n - 1) as nat, rest) {
                Option::None => None,
                Option::Some((s, rest2)) => Some((seq![c] + s, rest2)),
            },
        }
    }
}

/// A counted text off the front.
pub open spec fn dec_string(b: Seq<u8>) -> Option<(Seq<char>, Seq<u8>)> {
    match dec_u64(b) {
        Option::None => None,
        Option::Some((n, rest)) => dec_chars(n as nat, rest),
    }
}

/// `n` counted texts off the front.
pub open spec fn dec_strings(n: nat, b: Seq<u8>) -> Option<(Seq<Seq<char>>, Seq<u8>)>
    decreases n,
{
    if n == 0 {
        Some((Seq::<Seq<char>>::empty(), b))
    } else {
        match dec_string(b) {
            Option::None => None,
            Option::Some((s, rest)) => match dec_strings((n - 1) as nat, rest) {
                Option::None => None,
                Option::Some((ts, rest2)) => Some((seq![s] + ts, rest2)),
            },
        }
    }
}

/// One note off the front.
pub open spec fn dec_note(b: Seq<u8>) -> Option<(NoteView, Seq<u8>)> {
    match dec_string(b) {
        Option::None => None,
        Option::Some((created, b1)) => match dec_u64(b1) {
            Option::None => None,
            Option::Some((tn, b2)) => match dec_strings(tn as nat, b2) {
                Option::None => None,
                Option::Some((tags, b3)) => match dec_string(b3) {
                    Option::None => None,
                    Option::Some((content, b4)) => match dec_string(b4) {
                        Option::None => None,
                        Option::Some((desc, b5)) => Some(
                            (NoteView { created, tags, content, desc }, b5),
                        ),
                    },
                },
            },
        },
    }
}

/// `n` notes off the front.
pub open spec fn dec_notes(n: nat, b: Seq<u8>) -> Option<(Seq<NoteView>, Seq<u8>)>
    decreases n,
{
    if n == 0 {
        Some((Seq::<NoteView>::empty(), b))
    } else {
        match dec_note(b) {
            Option::None => None,
            Option::Some((nv, rest)) => match dec_notes((n - 1) as nat, rest) {
                Option::None => None,
                Option::Some((v, rest2)) => Some((seq![nv] + v, rest2)),
            },
        }
    }
}

/// The whole blob: the counted notes, with nothing left over.
pub open spec fn spec_decode(b: Seq<u8>) -> Option<Seq<NoteView>> {
    match dec_u64(b) {
        Option::None => None,
        Option::Some((n, rest)) => match dec_notes(n as nat, rest) {
            Option::None => None,
            Option::Some((v, rest2)) => if rest2.len() == 0 {
                Some(v)
            } else {
                None
            },
        },
    }
}

// ------------------------------------------------------------------
// Decoding inverts encoding.
// ------------------------------------------------------------------
proof fn lemma_dec_u64_enc(x: u64, rest: Seq<u8>)
    ensures
        dec_u64(spec_u64_to_le_bytes(x) + rest) == Some((x, rest)),
{
    lemma_auto_spec_u64_to_from_le_bytes();
    let b = spec_u64_to_le_bytes(x) + rest;
    assert(b.take(8) =~= spec_u64_to_le_bytes(x));
    assert(b.skip(8) =~= rest);
}

proof fn lemma_dec_char_enc(c: char, rest: Seq<u8>)
    ensures
        dec_char(spec_u32_to_le_bytes(c as u32) + rest) == Some((c, rest)),
{
    lemma_auto_spec_u32_to_from_le_bytes();
    char_is_scalar(c);
    char_u32_cast(c, c as u32);
    let b = spec_u32_to_le_bytes(c as u32) + rest;
    assert(b.take(4) =~= spec_u32_to_le_bytes(c as u32));
    assert(b.skip(4) =~= rest);
}

proof fn lemma_dec_chars_enc(s: Seq<char>, rest: Seq<u8>)
    ensures
        dec_chars(s.len(), enc_chars(s) + rest) == Some((s, rest)),
    decreases s.len(),
{
    if s.len() == 0 {
        assert(enc_chars(s) + rest =~= rest);
        assert(dec_chars(s.len(), rest) == Some((Seq::<char>::empty(), rest)));
        assert(s =~= Seq::<char>::empty());
    } else {
        let tail = s.drop_first();
        lemma_dec_chars_enc(tail, rest);
        let b = enc_chars(s) + rest;
        assert(b =~= spec_u32_to_le_bytes(s[0] as u32) + (enc_chars(tail) + rest));
        lemma_dec_char_enc(s[0], enc_chars(tail) + rest);
        assert(seq![s[0]] + tail =~= s);
    }
}

proof fn lemma_dec_string_enc(s: Seq<char>, rest: Seq<u8>)
    requires
        str_fits(s),
    ensures
        dec_string(enc_string(s) + rest) == Some((s, rest)),
{
    let b = enc_string(s) + rest;
    assert(b =~= spec_u64_to_le_bytes(s.len() as u64) + (enc_chars(s) + rest));
    lemma_dec_u64_enc(s.len() as u64, enc_chars(s) + rest);
    lemma_dec_chars_enc(s, rest);
    assert((s.len() as u64) as nat == s.len());
}

proof fn lemma_dec_strings_enc(ts: Seq<Seq<char>>, rest: Seq<u8>)
    requires
        forall|i: int| 0 <= i < ts.len() ==> str_fits(#[trigger] ts[i]),
    ensures
        dec_strings(ts.len(), enc_strings(ts) + rest) == Some((ts, rest)),
    decreases ts.len(),
{
    if ts.len() == 0 {
        assert(enc_strings(ts) + rest =~= rest);
        assert(ts =~= Seq::<Seq<char>>::empty());
    } else {
        let tail = ts.drop_first();
        lemma_dec_strings_enc(tail, rest);
        let b = enc_strings(ts) + rest;
        assert(b =~= enc_string(ts[0]) + (enc_strings(tail) + rest));
        lemma_dec_string_enc(ts[0], enc_strings(tail) + rest);
        assert(seq![ts[0]] + tail =~= ts);
    }
}

proof fn lemma_dec_note_enc(n: NoteView, rest: Seq<u8>)
    requires
        note_fits(n),
    ensures
        dec_note(enc_note(n) + rest) == Some((n, rest)),
{
    let b2 = enc_strings(n.tags) + (enc_string(n.content) + (enc_string(n.desc) + rest));
    let b1 = spec_u64_to_le_bytes(n.tags.len() as u64) + b2;
    let b = enc_note(n) + rest;
    assert(b =~= enc_string(n.created) + b1);
    lemma_dec_string_enc(n.created, b1);
    lemma_dec_u64_enc(n.tags.len() as u64, b2);
    lemma_dec_strings_enc(n.tags, enc_string(n.content) + (enc_string(n.desc) + rest));
    assert((n.tags.len() as u64) as nat == n.tags.len());
    lemma_dec_string_enc(n.content, enc_string(n.desc) + rest);
    lemma_dec_string_enc(n.desc, rest);
}

proof fn lemma_dec_notes_enc(v: Seq<NoteView>, rest: Seq<u8>)
    requires
        forall|i: int| 0 <= i < v.len() ==> note_fits(#[trigger] v[i]),
    ensures
        dec_notes(v.len(), enc_notes(v) + rest) == Some((v, rest)),
    decreases v.len(),
{
    if v.len() == 0 {
        assert(enc_notes(v) + rest =~= rest);
        assert(v =~= Seq::<NoteView>::empty());
    } else {
        let tail = v.drop_first();
        lemma_dec_notes_enc(tail, rest);
        let b = enc_notes(v) + rest;
        assert(b =~= enc_note(v[0]) + (enc_notes(tail) + rest));
        lemma_dec_note_enc(v[0], enc_notes(tail) + rest);
        assert(seq![v[0]] + tail =~= v);
    }
}

/// Decoding an encoded collection yields that collection exactly:
/// creation times, contents, descriptions and tag lists all come back
/// unchanged.
pub proof fn lemma_codec_round_trip(v: Seq<NoteView>)
    requires
        notes_fit(v),
    ensures
        spec_decode(spec_encode(v)) == Some(v),
{
    let b = spec_encode(v);
    assert(b =~= spec_u64_to_le_bytes(v.len() as u64) + (enc_notes(v) + Seq::<u8>::empty()));
    lemma_dec_u64_enc(v.len() as u64, enc_notes(v) + Seq::<u8>::empty());
    lemma_dec_notes_enc(v, Seq::<u8>::empty());
    assert((v.len() as u64) as nat == v.len());
    assert(enc_notes(v) + Seq::<u8>::empty() =~= enc_notes(v));
}

// ------------------------------------------------------------------
// Executable encoding.
// ------------------------------------------------------------------
/// A pushed character extends the character encoding by four bytes.
proof fn lemma_enc_chars_push(s: Seq<char>, c: char)
    ensures
        enc_chars(s.push(c)) == enc_chars(s) + spec_u32_to_le_bytes(c as u32),
    decreases s.len(),
{
    reveal_with_fuel(enc_chars, 3);
    if s.len() == 0 {
        assert(s.push(c)[0] == c);
        assert(s.push(c).drop_first() =~= Seq::<char>::empty());
        assert(enc_chars(s.push(c)) =~= enc_chars(s) + spec_u32_to_le_bytes(c as u32));
    } else {
        lemma_enc_chars_push(s.drop_first(), c);
        assert(s.push(c).drop_first() =~= s.drop_first().push(c));
        assert(s.push(c)[0] == s[0]);
        assert(enc_chars(s.push(c)) =~= enc_chars(s) + spec_u32_to_le_bytes(c as u32));
    }
}

/// A pushed text extends the text-list encoding by that text.
proof fn lemma_enc_strings_push(ts: Seq<Seq<char>>, s: Seq<char>)
    ensures
        enc_strings(ts.push(s)) == enc_strings(ts) + enc_string(s),
    decreases ts.len(),
{
    reveal_with_fuel(enc_strings, 3);
    if ts.len() == 0 {
        assert(ts.push(s)[0] == s);
        assert(ts.push(s).drop_first() =~= Seq::<Seq<char>>::empty());
        assert(enc_strings(ts.push(s)) =~= enc_strings(ts) + enc_string(s));
    } else {
        lemma_enc_strings_push(ts.drop_first(), s);
        assert(ts.push(s).drop_first() =~= ts.drop_first().push(s));
        assert(ts.push(s)[0] == ts[0]);
        assert(enc_strings(ts.push(s)) =~= enc_strings(ts) + enc_string(s));
    }
}

/// A pushed note extends the note-list encoding by that note.
proof fn lemma_enc_notes_push(v: Seq<NoteView>, n: NoteView)
    ensures
        enc_notes(v.push(n)) == enc_notes(v) + enc_note(n),
    decreases v.len(),
{
    reveal_with_fuel(enc_notes, 3);
    if v.len() == 0 {
        assert(v.push(n)[0] == n);
        assert(v.push(n).drop_first() =~= Seq::<NoteView>::empty());
        assert(enc_notes(v.push(n)) =~= enc_notes(v) + enc_note(n));
    } else {
        lemma_enc_notes_push(v.drop_first(), n);
        assert(v.push(n).drop_first() =~= v.drop_first().push(n));
        assert(v.push(n)[0] == v[0]);
        assert(enc_notes(v.push(n)) =~= enc_notes(v) + enc_note(n));
    }
}

fn encode_u64(x: u64, out: &mut Vec<u8>)
    ensures
        final(out)@ == old(out)@ + spec_u64_to_le_bytes(x),
{
    let mut bytes = u64_to_le_bytes(x);
    out.append(&mut bytes);
}

fn encode_string(s: &String, out: &mut Vec<u8>)
    ensures
        final(out)@ == old(out)@ + enc_string(s@),
{
    let n = s.as_str().unicode_len();
    encode_u64(n as u64, out);
    let ghost base = out@;
    let mut i: usize = 0;
    proof {
        assert(out@ =~= base + enc_chars(s@.take(0)));
    }
    while i < n
        invariant
            i <= n,
            n == s@.len(),
            out@ == base + enc_chars(s@.take(i as int)),
        decreases n - i,
    {
        let c = s.as_str().get_char(i);
        let mut bytes = u32_to_le_bytes(c as u32);
        out.append(&mut bytes);
        proof {
            lemma_enc_chars_push(s@.take(i as int), c);
            assert(s@.take(i + 1) =~= s@.take(i as int).push(s@[i as int]));
            assert(out@ =~= base + enc_chars(s@.take(i + 1)));
        }
        i += 1;
    }
    proof {
        assert(s@.take(n as int) =~= s@);
        assert((s@.len() as u64) == (n as u64));
        assert(out@ =~= old(out)@ + enc_string(s@));
    }
}

fn encode_note(n: &Note, out: &mut Vec<u8>)
    ensures
        final(out)@ == old(out)@ + enc_note(n@),
{
    encode_string(&n.created, out);
    let tags = n.tags.tags();
    encode_u64(tags.len() as u64, out);
    let ghost base = out@;
    let mut i: usize = 0;
    proof {
        assert(n@.tags.len() == tags@.len());
        assert(out@ =~= base + enc_strings(n@.tags.take(0)));
    }
    while i < tags.len()
        invariant
            i <= tags@.len(),
            n@.tags.len() == tags@.len(),
            forall|j: int| 0 <= j < tags@.len() ==> #[trigger] tags@[j]@ == n@.tags[j],
            out@ == base + enc_strings(n@.tags.take(i as int)),
        decreases tags@.len() - i,
    {
        encode_string(tags[i].name(), out);
        proof {
            lemma_enc_strings_push(n@.tags.take(i as int), n@.tags[i as int]);
            assert(n@.tags.take(i + 1) =~= n@.tags.take(i as int).push(n@.tags[i as int]));
            assert(out@ =~= base + enc_strings(n@.tags.take(i + 1)));
        }
        i += 1;
    }
    proof {
        assert(n@.tags.take(n@.tags.len() as int) =~= n@.tags);
    }
    encode_string(&n.content, out);
    encode_string(&n.desc, out);
    proof {
        assert(out@ =~= old(out)@ + enc_note(n@));
    }
}

/// The whole collection as one byte blob.
pub fn encode_notes(notes: &Vec<Note>) -> (r: Vec<u8>)
    ensures
        r@ == spec_encode(notes@.map_values(|n: Note| n@)),
{
    let ghost views = notes@.map_values(|n: Note| n@);
    let mut out: Vec<u8> = Vec::new();
    encode_u64(notes.len() as u64, &mut out);
    let ghost base = out@;
    let mut i: usize = 0;
    proof {
        assert(out@ =~= base + enc_notes(views.take(0)));
    }
    while i < notes.len()
        invariant
            i <= notes@.len(),
            views == notes@.map_values(|n: Note| n@),
            views.len() == notes@.len(),
            base == spec_u64_to_le_bytes(notes@.len() as u64),
            out@ == base + enc_notes(views.take(i as int)),
        decreases notes@.len() - i,
    {
        encode_note(&notes[i], &mut out);
        proof {
            lemma_enc_notes_push(views.take(i as int), views[i as int]);
            assert(views.take(i + 1) =~= views.take(i as int).push(views[i as int]));
            assert(out@ =~= base + enc_notes(views.take(i + 1)));
        }
        i += 1;
    }
    proof {
        assert(views.take(views.len() as int) =~= views);
        assert(out@ =~= spec_encode(views));
    }
    out
}

// ------------------------------------------------------------------
// Executable decoding.
// ------------------------------------------------------------------
fn decode_u64(buf: &Vec<u8>, pos: usize) -> (r: Option<(u64, usize)>)
    requires
        pos <= buf@.len(),
    ensures
        match r {
            Some(p) => p.1 <= buf@.len() && pos < p.1 && dec_u64(buf@.skip(pos as int)) == Some(
                (p.0, buf@.skip(p.1 as int)),
            ),
            None => dec_u64(buf@.skip(pos as int)) is None,
        },
{
    if buf.len() - pos >= 8 {
        let sub = slice_subrange(buf.as_slice(), pos, pos + 8);
        let x = u64_from_le_bytes(sub);
        proof {
            assert(buf@.skip(pos as int).take(8) =~= buf@.subrange(pos as int, pos + 8));
            assert(buf@.skip(pos as int).skip(8) =~= buf@.skip(pos + 8));
        }
        Some((x, pos + 8))
    } else {
        None
    }
}

fn decode_char(buf: &Vec<u8>, pos: usize) -> (r: Option<(char, usize)>)
    requires
        pos <= buf@.len(),
    ensures
        match r {
            Some(p) => p.1 <= buf@.len() && pos < p.1 && dec_char(buf@.skip(pos as int)) == Some(
                (p.0, buf@.skip(p.1 as int)),
            ),
            None => dec_char(buf@.skip(pos as int)) is None,
        },
{
    if buf.len() - pos >= 4 {
        let sub = slice_subrange(buf.as_slice(), pos, pos + 4);
        let u = u32_from_le_bytes(sub);
        proof {
            assert(buf@.skip(pos as int).take(4) =~= buf@.subrange(pos as int, pos + 4));
            assert(buf@.skip(pos as int).skip(4) =~= buf@.skip(pos + 4));
        }
        match char_from_u32(u) {
            Some(c) => Some((c, pos + 4)),
            None => None,
        }
    } else {
        None
    }
}

/// The partial result `r` with `prefix` put before its characters.
spec fn chars_with_prefix(prefix: Seq<char>, r: Option<(Seq<char>, Seq<u8>)>) -> Option<
    (Seq<char>, Seq<u8>),
> {
    match r {
        Option::None => None,
        Option::Some((s, rest)) => Some((prefix + s, rest)),
    }
}

proof fn lemma_chars_prefix_assoc(a: Seq<char>, b: Seq<char>, r: Option<(Seq<char>, Seq<u8>)>)
    ensures
        chars_with_prefix(a, chars_with_prefix(b, r)) == chars_with_prefix(a + b, r),
{
    match r {
        Option::None => {},
        Option::Some((s, rest)) => {
            assert(a + (b + s) =~= (a + b) + s);
        },
    }
}

fn decode_string(buf: &Vec<u8>, pos: usize) -> (r: Option<(String, usize)>)
    requires
        pos <= buf@.len(),
    ensures
        match r {
            Some(p) => p.1 <= buf@.len() && pos <= p.1 && dec_string(buf@.skip(pos as int))
                == Some((p.0@, buf@.skip(p.1 as int))),
            None => dec_string(buf@.skip(pos as int)) is None,
        },
{
    let (n, count_end) = match decode_u64(buf, pos) {
        Some(p) => p,
        None => {
            return None;
        },
    };
    let mut cur = count_end;
    let mut s = String::new();
    let mut k: u64 = 0;
    proof {
        assert(chars_with_prefix(s@, dec_chars(n as nat, buf@.skip(cur as int))) == dec_chars(
            n as nat,
            buf@.skip(cur as int),
        )) by {
            match dec_chars(n as nat, buf@.skip(cur as int)) {
                Option::None => {},
                Option::Some((t, rest)) => {
                    assert(s@ + t =~= t);
                },
            }
        }
    }
    while k < n
        invariant
            k <= n,
            pos <= cur <= buf@.len(),
            s@.len() == k,
            dec_string(buf@.skip(pos as int)) == chars_with_prefix(
                s@,
                dec_chars((n - k) as nat, buf@.skip(cur as int)),
            ),
        decreases n - k,
    {
        let ghost s_old = s@;
        let ghost pos_old = cur as int;
        let (c, p2) = match decode_char(buf, cur) {
            Some(p) => p,
            None => {
                proof {
                    assert(dec_chars((n - k) as nat, buf@.skip(cur as int)) is None);
                }
                return None;
            },
        };
        push_char(&mut s, c);
        cur = p2;
        k += 1;
        proof {
            let m = (n - k + 1) as nat;
            let b2 = buf@.skip(cur as int);
            assert(dec_chars(m, buf@.skip(pos_old)) == chars_with_prefix(
                seq![c],
                dec_chars((m - 1) as nat, b2),
            )) by {
                match dec_chars((m - 1) as nat, b2) {
                    Option::None => {},
                    Option::Some((t, rest)) => {},
                }
            }
            lemma_chars_prefix_assoc(s_old, seq![c], dec_chars((m - 1) as nat, b2));
            assert(s_old + seq![c] =~= s@);
        }
    }
    proof {
        assert(dec_chars(0, buf@.skip(cur as int)) == Some(
            (Seq::<char>::empty(), buf@.skip(cur as int)),
        ));
        assert(s@ + Seq::<char>::empty() =~= s@);
    }
    Some((s, cur))
}

/// The partial result `r` with `prefix` put before its texts.
spec fn strings_with_prefix(prefix: Seq<Seq<char>>, r: Option<(Seq<Seq<char>>, Seq<u8>)>) -> Option<
    (Seq<Seq<char>>, Seq<u8>),
> {
    match r {
        Option::None => None,
        Option::Some((ts, rest)) => Some((prefix + ts, rest)),
    }
}

proof fn lemma_strings_prefix_assoc(
    a: Seq<Seq<char>>,
    b: Seq<Seq<char>>,
    r: Option<(Seq<Seq<char>>, Seq<u8>)>,
)
    ensures
        strings_with_prefix(a, strings_with_prefix(b, r)) == strings_with_prefix(a + b, r),
{
    match r {
        Option::None => {},
        Option::Some((ts, rest)) => {
            assert(a + (b + ts) =~= (a + b) + ts);
        },
    }
}

/// What a decoded tag list means: the count, then that many texts.
spec fn dec_tags(b: Seq<u8>) -> Option<(Seq<Seq<char>>, Seq<u8>)> {
    match dec_u64(b) {
        Option::None => None,
        Option::Some((n, rest)) => dec_strings(n as nat, rest),
    }
}

fn decode_tags(buf: &Vec<u8>, pos: usize) -> (r: Option<(Tags, usize)>)
    requires
        pos <= buf@.len(),
    ensures
        match r {
            Some(p) => p.1 <= buf@.len() && pos <= p.1 && dec_tags(buf@.skip(pos as int)) == Some(
                (p.0@, buf@.skip(p.1 as int)),
            ),
            None => dec_tags(buf@.skip(pos as int)) is None,
        },
{
    let (n, count_end) = match decode_u64(buf, pos) {
        Some(p) => p,
        None => {
            return None;
        },
    };
    let mut cur = count_end;
    let mut tags = Tags::empty();
    let mut k: u64 = 0;
    proof {
        assert(strings_with_prefix(tags@, dec_strings(n as nat, buf@.skip(cur as int)))
            == dec_strings(n as nat, buf@.skip(cur as int))) by {
            match dec_strings(n as nat, buf@.skip(cur as int)) {
                Option::None => {},
                Option::Some((ts, rest)) => {
                    assert(tags@ + ts =~= ts);
                },
            }
        }
    }
    while k < n
        invariant
            k <= n,
            pos <= cur <= buf@.len(),
            tags@.len() == k,
            dec_tags(buf@.skip(pos as int)) == strings_with_prefix(
                tags@,
                dec_strings((n - k) as nat, buf@.skip(cur as int)),
            ),
        decreases n - k,
    {
        let ghost tags_old = tags@;
        let ghost pos_old = cur as int;
        let (s, p2) = match decode_string(buf, cur) {
            Some(p) => p,
            None => {
                proof {
                    assert(dec_strings((n - k) as nat, buf@.skip(cur as int)) is None);
                }
                return None;
            },
        };
        tags.push(Tag::new(s));
        cur = p2;
        k += 1;
        proof {
            let m = (n - k + 1) as nat;
            let b2 = buf@.skip(cur as int);
            assert(dec_strings(m, buf@.skip(pos_old)) == strings_with_prefix(
                seq![tags@.last()],
                dec_strings((m - 1) as nat, b2),
            )) by {
                match dec_strings((m - 1) as nat, b2) {
                    Option::None => {},
                    Option::Some((ts, rest)) => {},
                }
            }
            lemma_strings_prefix_assoc(tags_old, seq![tags@.last()], dec_strings((m - 1) as nat, b2));
            assert(tags_old + seq![tags@.last()] =~= tags@);
        }
    }
    proof {
        assert(dec_strings(0, buf@.skip(cur as int)) == Some(
            (Seq::<Seq<char>>::empty(), buf@.skip(cur as int)),
        ));
        assert(tags@ + Seq::<Seq<char>>::empty() =~= tags@);
    }
    Some((tags, cur))
}

fn decode_note(buf: &Vec<u8>, pos: usize) -> (r: Option<(Note, usize)>)
    requires
        pos <= buf@.len(),
    ensures
        match r {
            Some(p) => p.1 <= buf@.len() && pos <= p.1 && dec_note(buf@.skip(pos as int)) == Some(
                (p.0@, buf@.skip(p.1 as int)),
            ),
            None => dec_note(buf@.skip(pos as int)) is None,
        },
{
    let (created, p1) = match decode_string(buf, pos) {
        Some(p) => p,
        None => {
            return None;
        },
    };
    let (tags, p2) = match decode_tags(buf, p1) {
        Some(p) => p,
        None => {
            return None;
        },
    };
    let (content, p3) = match decode_string(buf, p2) {
        Some(p) => p,
        None => {
            return None;
        },
    };
    let (desc, p4) = match decode_string(buf, p3) {
        Some(p) => p,
        None => {
            return None;
        },
    };
    Some((Note::new(created, tags, content, desc), p4))
}

/// The partial result `r` with `prefix` put before its notes.
spec fn notes_with_prefix(prefix: Seq<NoteView>, r: Option<(Seq<NoteView>, Seq<u8>)>) -> Option<
    (Seq<NoteView>, Seq<u8>),
> {
    match r {
        Option::None => None,
        Option::Some((v, rest)) => Some((prefix + v, rest)),
    }
}

proof fn lemma_notes_prefix_assoc(
    a: Seq<NoteView>,
    b: Seq<NoteView>,
    r: Option<(Seq<NoteView>, Seq<u8>)>,
)
    ensures
        notes_with_prefix(a, notes_with_prefix(b, r)) == notes_with_prefix(a + b, r),
{
    match r {
        Option::None => {},
        Option::Some((v, rest)) => {
            assert(a + (b + v) =~= (a + b) + v);
        },
    }
}

/// The collection held in the byte blob, or the one decoding error when
/// the bytes are not exactly an encoded collection.
pub fn decode_notes(buf: &Vec<u8>) -> (r: Result<Vec<Note>, NotesError>)
    ensures
        match r {
            Ok(v) => spec_decode(buf@) == Some(v@.map_values(|n: Note| n@)),
            Err(e) => spec_decode(buf@) is None && e == NotesError::NoteDeserialization,
        },
{
    proof {
        assert(buf@.skip(0) =~= buf@);
    }
    let (n, count_end) = match decode_u64(buf, 0) {
        Some(p) => p,
        None => {
            return Err(NotesError::NoteDeserialization);
        },
    };
    let mut pos = count_end;
    let mut out: Vec<Note> = Vec::new();
    let mut k: u64 = 0;
    proof {
        assert(out@.map_values(|n: Note| n@) =~= Seq::<NoteView>::empty());
        assert(notes_with_prefix(
            out@.map_values(|n: Note| n@),
            dec_notes(n as nat, buf@.skip(pos as int)),
        ) == dec_notes(n as nat, buf@.skip(pos as int))) by {
            match dec_notes(n as nat, buf@.skip(pos as int)) {
                Option::None => {},
                Option::Some((v, rest)) => {
                    assert(Seq::<NoteView>::empty() + v =~= v);
                },
            }
        }
    }
    while k < n
        invariant
            k <= n,
            pos <= buf@.len(),
            out@.len() == k,
            dec_u64(buf@) == Some((n, buf@.skip(count_end as int))),
            dec_notes(n as nat, buf@.skip(count_end as int)) == notes_with_prefix(
                out@.map_values(|nt: Note| nt@),
                dec_notes((n - k) as nat, buf@.skip(pos as int)),
            ),
        decreases n - k,
    {
        let ghost out_old = out@.map_values(|nt: Note| nt@);
        let ghost pos_old = pos as int;
        let (note, p2) = match decode_note(buf, pos) {
            Some(p) => p,
            None => {
                proof {
                    assert(dec_notes((n - k) as nat, buf@.skip(pos as int)) is None);
                }
                return Err(NotesError::NoteDeserialization);
            },
        };
        let ghost nv = note@;
        out.push(note);
        pos = p2;
        k += 1;
        proof {
            let m = (n - k + 1) as nat;
            let b2 = buf@.skip(pos as int);
            assert(dec_notes(m, buf@.skip(pos_old)) == notes_with_prefix(
                seq![nv],
                dec_notes((m - 1) as nat, b2),
            )) by {
                match dec_notes((m - 1) as nat, b2) {
                    Option::None => {},
                    Option::Some((v, rest)) => {},
                }
            }
            lemma_notes_prefix_assoc(out_old, seq![nv], dec_notes((m - 1) as nat, b2));
            assert(out_old + seq![nv] =~= out@.map_values(|nt: Note| nt@));
        }
    }
    if pos != buf.len() {
        proof {
            assert(dec_notes(0, buf@.skip(pos as int)) == Some(
                (Seq::<NoteView>::empty(), buf@.skip(pos as int)),
            ));
            assert(out@.map_values(|nt: Note| nt@) + Seq::<NoteView>::empty() =~= out@.map_values(
                |nt: Note| nt@,
            ));
            assert(buf@.skip(pos as int).len() > 0);
        }
        return Err(NotesError::NoteDeserialization);
    }
    proof {
        assert(dec_notes(0, buf@.skip(pos as int)) == Some(
            (Seq::<NoteView>::empty(), buf@.skip(pos as int)),
        ));
        assert(out@.map_values(|nt: Note| nt@) + Seq::<NoteView>::empty() =~= out@.map_values(
            |nt: Note| nt@,
        ));
        assert(buf@.skip(pos as int).len() == 0);
    }
    Ok(out)
}

} // verus!
