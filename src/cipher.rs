//! De-obfuscation of the raw save text.
//!
//! Characters between structural delimiters form tokens; each token character
//! is shifted back by a cyclic key byte chosen by its position within the token.
//! Delimiters pass through unchanged. A digit that opens a header section gets a
//! `.` inserted before it, and a recovered `"` gets a `\` inserted before it.
use vstd::prelude::*;
use crate::text::{char_from_code, chars_of, is_scalar_value, string_of};

verus! {

/// Length of the cyclic key (`QWERTY`).
pub const KEY_LEN: usize = 6;

/// The key byte at position `i` of the key (`QWERTY`).
pub open spec fn key_byte(i: int) -> int {
    if i == 0 {
        81
    } else if i == 1 {
        87
    } else if i == 2 {
        69
    } else if i == 3 {
        82
    } else if i == 4 {
        84
    } else {
        89
    }
}

/// The key byte used for the token character at position `pos`.
pub open spec fn key_at(pos: int) -> int {
    key_byte(pos % (KEY_LEN as int))
}

fn key_offset(pos: usize) -> (r: u32)
    ensures
        r as int == key_at(pos as int),
{
    let i = pos % KEY_LEN;
    if i == 0 {
        81
    } else if i == 1 {
        87
    } else if i == 2 {
        69
    } else if i == 3 {
        82
    } else if i == 4 {
        84
    } else {
        89
    }
}

pub open spec fn is_delimiter(c: char) -> bool {
    c == '[' || c == ']' || c == '=' || c == '"' || c == '\n' || c == '\r'
}

pub open spec fn is_decimal_digit(c: char) -> bool {
    '0' <= c && c <= '9'
}

/// The code that token character `c` at position `pos` recovers to.
pub open spec fn plain_code(c: char, pos: int) -> int {
    (c as u32) as int - key_at(pos)
}

/// The character that token character `c` at position `pos` recovers to.
pub open spec fn plain_char(c: char, pos: int) -> char {
    plain_code(c, pos) as char
}

/// Every character of the token recovers to a valid character.
pub open spec fn token_recoverable(buf: Seq<char>) -> bool {
    forall|i: int| 0 <= i < buf.len() ==> is_scalar_value(#[trigger] plain_code(buf[i], i))
}

/// The text emitted for the token `buf` from position `i` on, with header
/// context `header` at that point.
pub open spec fn flush_from(buf: Seq<char>, i: int, header: bool) -> Seq<char>
    decreases buf.len() - i,
{
    if i < 0 || i >= buf.len() {
        Seq::empty()
    } else {
        let d = plain_char(buf[i], i);
        if header && is_decimal_digit(d) {
            seq!['.', d] + flush_from(buf, i + 1, false)
        } else if d == '"' {
            seq!['\\', d] + flush_from(buf, i + 1, header)
        } else {
            seq![d] + flush_from(buf, i + 1, header)
        }
    }
}

/// The decoder's state after a prefix of the input: text emitted so far, the
/// pending token, the header context, and whether every flushed token recovered.
pub struct CipherState {
    pub out: Seq<char>,
    pub buf: Seq<char>,
    pub header: bool,
    pub ok: bool,
}

pub open spec fn initial_state() -> CipherState {
    CipherState { out: Seq::empty(), buf: Seq::empty(), header: false, ok: true }
}

/// One input character applied to the state.
pub open spec fn step(st: CipherState, c: char) -> CipherState {
    if c == '\0' {
        st
    } else if is_delimiter(c) {
        CipherState {
            out: st.out + flush_from(st.buf, 0, st.header) + seq![c],
            buf: Seq::empty(),
            header: if c == '[' {
                true
            } else if st.buf.len() > 0 {
                false
            } else {
                st.header
            },
            ok: st.ok && token_recoverable(st.buf),
        }
    } else {
        CipherState { buf: st.buf.push(c), ..st }
    }
}

/// The state after the whole input.
pub open spec fn run(input: Seq<char>) -> CipherState
    decreases input.len(),
{
    if input.len() == 0 {
        initial_state()
    } else {
        step(run(input.drop_last()), input.last())
    }
}

/// Every token of `input` that is followed by a delimiter recovers to valid characters.
pub open spec fn decodable(input: Seq<char>) -> bool {
    run(input).ok
}

/// The repaired text for `input`. A trailing token with no delimiter after it
/// emits nothing.
pub open spec fn decrypted(input: Seq<char>) -> Seq<char> {
    run(input).out
}

/// Appends the text for token `buf` to `out`. Returns `false` where a character
/// of the token does not recover; what was appended is then left unstated.
fn flush(out: &mut Vec<char>, buf: &Vec<char>, header: bool) -> (ok: bool)
    ensures
        ok == token_recoverable(buf@),
        ok ==> final(out)@ == old(out)@ + flush_from(buf@, 0, header),
{
    let ghost out0 = out@;
    let mut h = header;
    let mut i: usize = 0;
    while i < buf.len()
        invariant
            0 <= i <= buf.len(),
            out@ + flush_from(buf@, i as int, h) == out0 + flush_from(buf@, 0, header),
            forall|k: int| 0 <= k < i ==> is_scalar_value(#[trigger] plain_code(buf@[k], k)),
        decreases buf.len() - i,
    {
        let c = buf[i];
        let code = c as u32;
        let offset = key_offset(i);
        if code < offset {
            assert(!is_scalar_value(plain_code(buf@[i as int], i as int)));
            return false;
        }
        let d = match char_from_code(code - offset) {
            Some(d) => d,
            None => {
                assert(!is_scalar_value(plain_code(buf@[i as int], i as int)));
                return false;
            },
        };
        proof {
            assert(d as int == plain_code(buf@[i as int], i as int));
            assert(d == plain_char(buf@[i as int], i as int));
        }
        let ghost before = out@;
        if h && '0' <= d && d <= '9' {
            out.push('.');
            out.push(d);
            h = false;
            assert(out@ == before + seq!['.', d]);
        } else if d == '"' {
            out.push('\\');
            out.push(d);
            assert(out@ == before + seq!['\\', d]);
        } else {
            out.push(d);
            assert(out@ == before + seq![d]);
        }
        i = i + 1;
    }
    assert(flush_from(buf@, i as int, h) == Seq::<char>::empty());
    assert(out@ == out0 + flush_from(buf@, 0, header));
    true
}

/// Once a token has failed to recover, the input stays undecodable whatever follows.
proof fn lemma_failure_persists(input: Seq<char>, j: int)
    requires
        0 <= j <= input.len(),
        !run(input.take(j)).ok,
    ensures
        !run(input).ok,
    decreases input.len() - j,
{
    if j < input.len() {
        assert(input.take(j + 1).drop_last() == input.take(j));
        lemma_failure_persists(input, j + 1);
    } else {
        assert(input.take(j) == input);
    }
}

/// De-obfuscates `input`, or returns `None` where a token followed by a
/// delimiter holds a character that does not recover to a valid character.
pub fn try_decrypt(input: &str) -> (r: Option<String>)
    ensures
        r is Some <==> decodable(input@),
        r matches Some(s) ==> s@ == decrypted(input@),
{
    let chars = chars_of(input);
    let mut out: Vec<char> = Vec::new();
    let mut buf: Vec<char> = Vec::new();
    let mut header = false;
    let mut j: usize = 0;
    while j < chars.len()
        invariant
            0 <= j <= chars.len(),
            chars@ == input@,
            run(input@.take(j as int)) == (CipherState {
                out: out@,
                buf: buf@,
                header: header,
                ok: true,
            }),
        decreases chars.len() - j,
    {
        let c = chars[j];
        let ghost prev = input@.take(j as int);
        assert(input@.take(j + 1).drop_last() == prev);
        assert(input@.take(j + 1).last() == c);
        if c == '\0' {
        } else if c == '[' || c == ']' || c == '=' || c == '"' || c == '\n' || c == '\r' {
            let had_token = buf.len() > 0;
            let ghost out_before = out@;
            if !flush(&mut out, &buf, header) {
                proof {
                    lemma_failure_persists(input@, j + 1);
                }
                return None;
            }
            out.push(c);
            assert(out@ == out_before + flush_from(buf@, 0, header) + seq![c]);
            buf = Vec::new();
            if c == '[' {
                header = true;
            } else if had_token {
                header = false;
            }
        } else {
            buf.push(c);
        }
        assert(run(input@.take(j + 1)) == step(run(prev), c));
        j = j + 1;
    }
    assert(input@.take(j as int) == input@);
    Some(string_of(&out))
}

/// De-obfuscates `input` and repairs the syntax that obfuscation would break.
pub fn decrypt(input: &str) -> (r: String)
    requires
        decodable(input@),
    ensures
        r@ == decrypted(input@),
{
    match try_decrypt(input) {
        Some(s) => s,
        None => String::new(),
    }
}

/// Input made only of structural delimiters comes out unchanged: there is no
/// token to de-obfuscate.
pub proof fn lemma_delimiters_pass_through(input: Seq<char>)
    requires
        forall|i: int| 0 <= i < input.len() ==> is_delimiter(#[trigger] input[i]),
    ensures
        decodable(input),
        decrypted(input) == input,
    decreases input.len(),
{
    if input.len() > 0 {
        let rest = input.drop_last();
        assert forall|i: int| 0 <= i < rest.len() implies is_delimiter(#[trigger] rest[i]) by {
            assert(rest[i] == input[i]);
        }
        lemma_delimiters_pass_through(rest);
        lemma_delimiters_leave_no_token(rest);
        assert(flush_from(Seq::<char>::empty(), 0, run(rest).header) == Seq::<char>::empty());
        assert(rest + Seq::<char>::empty() + seq![input.last()] == input);
    }
}

proof fn lemma_delimiters_leave_no_token(input: Seq<char>)
    requires
        forall|i: int| 0 <= i < input.len() ==> is_delimiter(#[trigger] input[i]),
    ensures
        run(input).buf == Seq::<char>::empty(),
    decreases input.len(),
{
    if input.len() > 0 {
        let rest = input.drop_last();
        assert forall|i: int| 0 <= i < rest.len() implies is_delimiter(#[trigger] rest[i]) by {
            assert(rest[i] == input[i]);
        }
        lemma_delimiters_leave_no_token(rest);
    }
}

/// `s` with every null character removed.
pub open spec fn without_nulls(s: Seq<char>) -> Seq<char>
    decreases s.len(),
{
    if s.len() == 0 {
        s
    } else if s.last() == '\0' {
        without_nulls(s.drop_last())
    } else {
        without_nulls(s.drop_last()).push(s.last())
    }
}

/// Null characters are dropped wherever they stand and do not move the key
/// position of any other character: the decoder behaves as on the input with
/// every null removed, so [`try_decrypt`] gives the same result on both, and
/// either both are decodable or neither is.
pub proof fn lemma_nulls_ignored(input: Seq<char>)
    ensures
        run(input) == run(without_nulls(input)),
        decrypted(input) == decrypted(without_nulls(input)),
        decodable(input) == decodable(without_nulls(input)),
    decreases input.len(),
{
    if input.len() > 0 {
        let rest = input.drop_last();
        lemma_nulls_ignored(rest);
        if input.last() != '\0' {
            assert(without_nulls(input).drop_last() == without_nulls(rest));
        }
    }
}

/// Token `o` is plaintext `p` obfuscated with the key: character `i` of `o`,
/// shifted down by the key byte for position `i`, is character `i` of `p`.
pub open spec fn obfuscates(o: Seq<char>, p: Seq<char>) -> bool {
    &&& o.len() == p.len()
    &&& forall|i: int|
        0 <= i < o.len() ==> is_scalar_value(#[trigger] plain_code(o[i], i)) && plain_char(o[i], i)
            == p[i]
}

/// The text that plaintext token `p` comes back as, from position `i` on: the
/// plaintext itself, with a `.` before the first digit where the token opens a
/// header section and a `\` before each `"`.
pub open spec fn restored(p: Seq<char>, i: int, header: bool) -> Seq<char>
    decreases p.len() - i,
{
    if i < 0 || i >= p.len() {
        Seq::empty()
    } else if header && is_decimal_digit(p[i]) {
        seq!['.', p[i]] + restored(p, i + 1, false)
    } else if p[i] == '"' {
        seq!['\\', p[i]] + restored(p, i + 1, header)
    } else {
        seq![p[i]] + restored(p, i + 1, header)
    }
}

/// Appending token characters only extends the pending token.
proof fn lemma_token_accumulates(a: Seq<char>, o: Seq<char>)
    requires
        forall|i: int| 0 <= i < o.len() ==> !is_delimiter(#[trigger] o[i]) && o[i] != '\0',
    ensures
        run(a + o) == (CipherState { buf: run(a).buf + o, ..run(a) }),
    decreases o.len(),
{
    if o.len() == 0 {
        assert(a + o == a);
        assert(run(a).buf + o == run(a).buf);
    } else {
        let ol = o.drop_last();
        assert forall|i: int| 0 <= i < ol.len() implies !is_delimiter(#[trigger] ol[i]) && ol[i]
            != '\0' by {
            assert(ol[i] == o[i]);
        }
        lemma_token_accumulates(a, ol);
        assert((a + o).drop_last() == a + ol);
        assert((a + o).last() == o.last());
        assert(!is_delimiter(o[o.len() - 1]) && o[o.len() - 1] != '\0');
        assert((run(a).buf + ol).push(o.last()) == run(a).buf + o);
    }
}

proof fn lemma_flush_restores(o: Seq<char>, p: Seq<char>, i: int, header: bool)
    requires
        obfuscates(o, p),
        0 <= i <= o.len(),
    ensures
        flush_from(o, i, header) == restored(p, i, header),
        forall|k: int| i <= k < o.len() ==> is_scalar_value(#[trigger] plain_code(o[k], k)),
    decreases o.len() - i,
{
    if i < o.len() {
        assert(plain_char(o[i], i) == p[i]);
        lemma_flush_restores(o, p, i + 1, false);
        lemma_flush_restores(o, p, i + 1, header);
    }
}

/// An obfuscated token followed by a delimiter comes back as its plaintext,
/// changed only by the insertions that `restored` predicts from the plaintext:
/// with header context where the token follows `[`, without it otherwise.
pub proof fn lemma_round_trip(o: Seq<char>, p: Seq<char>, d: char)
    requires
        obfuscates(o, p),
        forall|i: int| 0 <= i < o.len() ==> !is_delimiter(#[trigger] o[i]) && o[i] != '\0',
        is_delimiter(d),
    ensures
        decodable(o.push(d)),
        decrypted(o.push(d)) == restored(p, 0, false).push(d),
        decodable(seq!['['] + o + seq![d]),
        decrypted(seq!['['] + o + seq![d]) == seq!['['] + restored(p, 0, true) + seq![d],
{
    lemma_flush_restores(o, p, 0, false);
    lemma_flush_restores(o, p, 0, true);
    lemma_token_accumulates(Seq::empty(), o);
    assert(Seq::<char>::empty() + o == o);
    assert(o.push(d).drop_last() == o);
    let open = seq!['['];
    assert(open.drop_last() == Seq::<char>::empty());
    assert(run(open) == step(initial_state(), '['));
    assert(flush_from(Seq::<char>::empty(), 0, false) == Seq::<char>::empty());
    lemma_token_accumulates(open, o);
    assert((open + o + seq![d]).drop_last() == open + o);
    assert(Seq::<char>::empty() + restored(p, 0, false) + seq![d] == restored(p, 0, false).push(
        d,
    ));
    assert(Seq::<char>::empty() + seq!['['] + restored(p, 0, true) + seq![d] == seq!['[']
        + restored(p, 0, true) + seq![d]);
}

/// One piece of an obfuscated document: an obfuscated token, the plaintext it
/// hides, and the delimiter after it.
pub struct Segment {
    pub token: Seq<char>,
    pub plain: Seq<char>,
    pub delimiter: char,
}

/// The segment is well formed: its token obfuscates its plaintext, holds no
/// delimiter or null, and a delimiter follows it.
pub open spec fn segment_ok(g: Segment) -> bool {
    &&& obfuscates(g.token, g.plain)
    &&& forall|i: int|
        0 <= i < g.token.len() ==> !is_delimiter(#[trigger] g.token[i]) && g.token[i] != '\0'
    &&& is_delimiter(g.delimiter)
}

/// The raw text that segments `gs` make: each token followed by its delimiter.
pub open spec fn raw_text(gs: Seq<Segment>) -> Seq<char>
    decreases gs.len(),
{
    if gs.len() == 0 {
        Seq::empty()
    } else {
        raw_text(gs.drop_last()) + gs.last().token + seq![gs.last().delimiter]
    }
}

/// The header context after segments `gs`: set by `[`, cleared by a
/// non-empty token, kept across an empty one.
pub open spec fn header_after(gs: Seq<Segment>) -> bool
    decreases gs.len(),
{
    if gs.len() == 0 {
        false
    } else if gs.last().delimiter == '[' {
        true
    } else if gs.last().plain.len() > 0 {
        false
    } else {
        header_after(gs.drop_last())
    }
}

/// The text that segments `gs` come back as: each plaintext, restored with the
/// header context left by the segments before it, followed by its delimiter.
pub open spec fn restored_text(gs: Seq<Segment>) -> Seq<char>
    decreases gs.len(),
{
    if gs.len() == 0 {
        Seq::empty()
    } else {
        restored_text(gs.drop_last()) + restored(gs.last().plain, 0, header_after(gs.drop_last()))
            + seq![gs.last().delimiter]
    }
}

/// A whole document of obfuscated tokens and delimiters comes back as its
/// plaintext, token by token, changed only by the insertions that `restored`
/// predicts from the plaintext and the header context.
pub proof fn lemma_document_round_trip(gs: Seq<Segment>)
    requires
        forall|k: int| 0 <= k < gs.len() ==> segment_ok(#[trigger] gs[k]),
    ensures
        decodable(raw_text(gs)),
        decrypted(raw_text(gs)) == restored_text(gs),
        run(raw_text(gs)) == (CipherState {
            out: restored_text(gs),
            buf: Seq::empty(),
            header: header_after(gs),
            ok: true,
        }),
    decreases gs.len(),
{
    if gs.len() > 0 {
        let prev = gs.drop_last();
        assert forall|k: int| 0 <= k < prev.len() implies segment_ok(#[trigger] prev[k]) by {
            assert(prev[k] == gs[k]);
        }
        lemma_document_round_trip(prev);
        let g = gs.last();
        assert(segment_ok(gs[gs.len() - 1]));
        let a = raw_text(prev);
        lemma_token_accumulates(a, g.token);
        assert(Seq::<char>::empty() + g.token == g.token);
        lemma_flush_restores(g.token, g.plain, 0, header_after(prev));
        assert((a + g.token + seq![g.delimiter]).drop_last() == a + g.token);
        assert((a + g.token + seq![g.delimiter]).last() == g.delimiter);
    }
}

} // verus!
