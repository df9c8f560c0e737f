use vstd::prelude::*;
use vstd::utf8::*;
use vstd::string::StringSliceAdditionalSpecFns;

use crate::support::push_char;

verus! {

broadcast use vstd::utf8::encode_utf8_valid_utf8;

/// The apostrophe-like characters that users type in place of `'`.
pub open spec fn is_apostrophe_like(c: char) -> bool {
    c == '\u{2018}' || c == '\u{2019}' || c == '`' || c == '\u{00B4}' || c == '\u{2032}'
        || c == '\u{201B}' || c == '\''
}

pub open spec fn sanitize_char(c: char) -> char {
    if is_apostrophe_like(c) {
        '\''
    } else {
        c
    }
}

/// Replaces every apostrophe-like character (‘ ’ ` ´ ′ ‛ ') by a plain `'`.
pub fn sanitize_apostrophes(s: String) -> (res: String)
    ensures
        res@ == s@.map_values(|c: char| sanitize_char(c)),
{
    let n = s.as_str().unicode_len();
    let mut res = String::new();
    let mut i: usize = 0;
    while i < n
        invariant
            n == s@.len(),
            i <= n,
            res@ == s@.subrange(0, i as int).map_values(|c: char| sanitize_char(c)),
        decreases n - i,
    {
        let c = s.as_str().get_char(i);
        let d = if c == '\u{2018}' || c == '\u{2019}' || c == '`' || c == '\u{00B4}' || c
            == '\u{2032}' || c == '\u{201B}' || c == '\'' {
            '\''
        } else {
            c
        };
        push_char(&mut res, d);
        assert(s@.subrange(0, i + 1) =~= s@.subrange(0, i as int).push(c));
        i = i + 1;
    }
    assert(s@.subrange(0, n as int) =~= s@);
    res
}

pub open spec fn ascii_lower_char(c: char) -> char {
    if 'A' <= c && c <= 'Z' {
        ((c as u32) + 32) as char
    } else {
        c
    }
}

/// ASCII lower case: `A`..`Z` become `a`..`z`, every other character stays.
pub open spec fn ascii_lower(s: Seq<char>) -> Seq<char> {
    s.map_values(|c: char| ascii_lower_char(c))
}

/// The string with its ASCII letters in lower case (as `str::to_ascii_lowercase`).
pub fn to_ascii_lowercase(s: &str) -> (res: String)
    ensures
        res@ == ascii_lower(s@),
{
    let n = s.unicode_len();
    let mut res = String::new();
    let mut i: usize = 0;
    while i < n
        invariant
            n == s@.len(),
            i <= n,
            res@ == ascii_lower(s@.subrange(0, i as int)),
        decreases n - i,
    {
        let c = s.get_char(i);
        let d = lower_char(c);
        push_char(&mut res, d);
        assert(s@.subrange(0, i + 1) =~= s@.subrange(0, i as int).push(c));
        i = i + 1;
    }
    assert(s@.subrange(0, n as int) =~= s@);
    res
}

/// The character in ASCII lower case (as `char::to_ascii_lowercase`).
pub fn lower_char(c: char) -> (res: char)
    ensures
        res == ascii_lower_char(c),
{
    if 'A' <= c && c <= 'Z' {
        let u = (c as u32) + 32;
        assert(0x61 <= u <= 0x7a);
        char_from_ascii_code(u)
    } else {
        c
    }
}

/// The character with the given code, for codes of lower-case ASCII letters.
fn char_from_ascii_code(u: u32) -> (c: char)
    requires
        0x61 <= u <= 0x7a,
    ensures
        c == u as char,
{
    let b = u as u8;
    let c = b as char;
    c
}

/// The first `;`-separated part of `style` that starts with `fill:#`,
/// without that prefix.
pub open spec fn spec_fill_color(style: Seq<char>) -> Option<Seq<char>>
    decreases style.len(),
{
    let end = segment_end(style, 0);
    proof {
        lemma_segment_end_bounds(style, 0);
    }
    let seg = style.subrange(0, end);
    if seg.len() >= 6 && seg.subrange(0, 6) == "fill:#"@ {
        Some(seg.subrange(6, seg.len() as int))
    } else if end < style.len() {
        proof {
            lemma_segment_end_bounds(style, 0);
        }
        spec_fill_color(style.subrange(end + 1, style.len() as int))
    } else {
        None
    }
}

/// The index of the first `;` at or after `i`, or the length of `s`.
pub open spec fn segment_end(s: Seq<char>, i: int) -> int
    decreases s.len() - i,
{
    if i < 0 || i >= s.len() {
        s.len() as int
    } else if s[i] == ';' {
        i
    } else {
        segment_end(s, i + 1)
    }
}

pub proof fn lemma_segment_end_bounds(s: Seq<char>, i: int)
    requires
        0 <= i <= s.len(),
    ensures
        i <= segment_end(s, i) <= s.len(),
        segment_end(s, i) < s.len() ==> s[segment_end(s, i)] == ';',
        forall|k: int| i <= k < segment_end(s, i) ==> s[k] != ';',
    decreases s.len() - i,
{
    if i < s.len() && s[i] != ';' {
        lemma_segment_end_bounds(s, i + 1);
    }
}

proof fn lemma_segment_end_shift(s: Seq<char>, start: int, i: int)
    requires
        0 <= start <= i <= s.len(),
    ensures
        segment_end(s.subrange(start, s.len() as int), i - start) == segment_end(s, i) - start,
    decreases s.len() - i,
{
    if i < s.len() && s[i] != ';' {
        lemma_segment_end_shift(s, start, i + 1);
    }
}

/// The fill colour of an SVG `style` attribute: the text after `fill:#`
/// in its first `;`-separated part that starts so.
pub fn get_fill_color(style: &str) -> (res: Option<&str>)
    ensures
        match res {
            Some(c) => spec_fill_color(style@) == Some(c@),
            None => spec_fill_color(style@) is None,
        },
{
    let n = style.unicode_len();
    let mut start: usize = 0;
    proof {
        assert(style@.subrange(0, n as int) =~= style@);
    }
    while start <= n
        invariant
            n == style@.len(),
            start <= n + 1,
            start <= n ==> spec_fill_color(style@) == spec_fill_color(
                style@.subrange(start as int, n as int),
            ),
            start > n ==> spec_fill_color(style@) is None,
        decreases n + 1 - start,
    {
        let ghost rest = style@.subrange(start as int, n as int);
        let mut end = start;
        while end < n && style.get_char(end) != ';'
            invariant
                n == style@.len(),
                start <= end <= n,
                forall|k: int| start <= k < end ==> style@[k] != ';',
            decreases n - end,
        {
            end = end + 1;
        }
        proof {
            lemma_segment_end_bounds(style@, start as int);
            lemma_segment_end_shift(style@, start as int, start as int);
            assert(segment_end(style@, start as int) == end as int) by {
                lemma_segment_end_from(style@, start as int, end as int);
            }
        }
        if end - start >= 6 && style.get_char(start) == 'f' && style.get_char(start + 1) == 'i'
            && style.get_char(start + 2) == 'l' && style.get_char(start + 3) == 'l'
            && style.get_char(start + 4) == ':' && style.get_char(start + 5) == '#' {
            let c = style.substring_char(start + 6, end);
            proof {
                let seg = rest.subrange(0, end - start);
                assert(seg.subrange(0, 6) =~= "fill:#"@) by {
                    reveal_strlit("fill:#");
                }
                assert(seg.subrange(6, seg.len() as int) =~= c@);
            }
            return Some(c);
        }
        proof {
            let seg = rest.subrange(0, end - start);
            if seg.len() >= 6 {
                reveal_strlit("fill:#");
                assert(seg.subrange(0, 6) != "fill:#"@) by {
                    let p = "fill:#"@;
                    if seg.subrange(0, 6) == p {
                        assert(seg.subrange(0, 6)[0] == 'f');
                        assert(seg.subrange(0, 6)[1] == 'i');
                        assert(seg.subrange(0, 6)[2] == 'l');
                        assert(seg.subrange(0, 6)[3] == 'l');
                        assert(seg.subrange(0, 6)[4] == ':');
                        assert(seg.subrange(0, 6)[5] == '#');
                    }
                }
            }
            if end < n {
                assert(rest.subrange(end - start + 1, rest.len() as int) =~= style@.subrange(
                    end + 1,
                    n as int,
                ));
            }
        }
        if end >= n {
            return None;
        }
        start = end + 1;
    }
    None
}

proof fn lemma_segment_end_from(s: Seq<char>, i: int, e: int)
    requires
        0 <= i <= e <= s.len(),
        forall|k: int| i <= k < e ==> s[k] != ';',
        e == s.len() || s[e] == ';',
    ensures
        segment_end(s, i) == e,
    decreases e - i,
{
    if i < e {
        lemma_segment_end_from(s, i + 1, e);
    }
}


/// Longest message, in bytes, that is sent in one piece.
pub const MESSAGE_LIMIT: usize = 2000;

/// Attachments larger than this many bytes are sent zipped.
pub const ATTACHMENT_ZIP_THRESHOLD: u64 = 10485760;

/// The index of the last newline byte before index `k`, or -1.
pub open spec fn last_newline_before(b: Seq<u8>, k: int) -> int
    decreases k,
{
    if k <= 0 {
        -1
    } else if b[k - 1] == 10u8 {
        k - 1
    } else {
        last_newline_before(b, k - 1)
    }
}

/// Where an overlong message is cut: at its last newline among the first
/// `MESSAGE_LIMIT` bytes, else after `MESSAGE_LIMIT` bytes.
pub open spec fn message_cut(b: Seq<u8>) -> int {
    let r = last_newline_before(b, MESSAGE_LIMIT as int);
    if r >= 0 {
        r
    } else {
        MESSAGE_LIMIT as int
    }
}

pub proof fn lemma_last_newline_bounds(b: Seq<u8>, k: int)
    requires
        0 <= k <= b.len(),
    ensures
        -1 <= last_newline_before(b, k) < k,
        last_newline_before(b, k) >= 0 ==> b[last_newline_before(b, k)] == 10u8,
        forall|j: int| last_newline_before(b, k) < j < k ==> b[j] != 10u8,
    decreases k,
{
    if k > 0 && b[k - 1] != 10u8 {
        lemma_last_newline_bounds(b, k - 1);
    }
}

/// The message (as UTF-8 bytes) can be cut into pieces: every cut falls on a
/// character boundary and makes progress.
pub open spec fn message_cuttable(b: Seq<u8>) -> bool
    decreases b.len(),
{
    if b.len() <= MESSAGE_LIMIT {
        true
    } else {
        proof {
            lemma_last_newline_bounds(b, MESSAGE_LIMIT as int);
        }
        let c = message_cut(b);
        &&& is_char_boundary(b, MESSAGE_LIMIT as int)
        &&& c > 0
        &&& message_cuttable(b.subrange(c, b.len() as int))
    }
}

/// The pieces a message is sent in: while more than `MESSAGE_LIMIT` bytes
/// remain, the part before the cut is sent and the rest (from the newline
/// on) continues; the last piece is what remains.
pub open spec fn message_pieces(b: Seq<u8>) -> Seq<Seq<u8>>
    decreases b.len(),
{
    if b.len() <= MESSAGE_LIMIT {
        seq![b]
    } else {
        proof {
            lemma_last_newline_bounds(b, MESSAGE_LIMIT as int);
        }
        let c = message_cut(b);
        if c <= 0 {
            seq![b]
        } else {
            seq![b.subrange(0, c)] + message_pieces(b.subrange(c, b.len() as int))
        }
    }
}

/// Cuts a reply into the messages it is sent as. All but the last are sent
/// one after the other; the last is the final reply, sent with any
/// attachment.
pub fn split_response(response: &str) -> (res: Vec<String>)
    requires
        message_cuttable(response.spec_bytes()),
    ensures
        res@.len() == message_pieces(response.spec_bytes()).len(),
        forall|i: int|
            0 <= i < res@.len() ==> encode_utf8(#[trigger] res@[i]@) == message_pieces(
                response.spec_bytes(),
            )[i],
{
    let mut out: Vec<String> = Vec::new();
    let mut rest: &str = response;
    let ghost whole = response.spec_bytes();
    proof {
        assert(message_pieces(whole) =~= Seq::<Seq<u8>>::empty() + message_pieces(rest.spec_bytes()));
    }
    while rest.as_bytes().len() > MESSAGE_LIMIT
        invariant
            message_cuttable(rest.spec_bytes()),
            out@.len() + message_pieces(rest.spec_bytes()).len() == message_pieces(whole).len(),
            forall|i: int| 0 <= i < out@.len() ==> encode_utf8(#[trigger] out@[i]@) == message_pieces(whole)[i],
            forall|i: int|
                0 <= i < message_pieces(rest.spec_bytes()).len() ==> message_pieces(whole)[out@.len() + i]
                    == #[trigger] message_pieces(rest.spec_bytes())[i],
        decreases rest.spec_bytes().len(),
    {
        let bytes = rest.as_bytes();
        let ghost b = rest.spec_bytes();
        proof {
            lemma_last_newline_bounds(b, MESSAGE_LIMIT as int);
        }
        let mut k: usize = MESSAGE_LIMIT;
        let mut cut: usize = MESSAGE_LIMIT;
        while k > 0
            invariant_except_break
                last_newline_before(b, MESSAGE_LIMIT as int) == last_newline_before(b, k as int),
                cut == MESSAGE_LIMIT,
            invariant
                bytes@ == b,
                b.len() > MESSAGE_LIMIT,
                k <= MESSAGE_LIMIT,
            ensures
                cut as int == message_cut(b),
            decreases k,
        {
            if bytes[k - 1] == 10u8 {
                cut = k - 1;
                break;
            }
            k = k - 1;
        }
        assert(cut as int == message_cut(b));
        proof {
            assert(valid_utf8(b));
            if cut < MESSAGE_LIMIT {
                assert(b[cut as int] == 10u8);
                vstd::utf8::is_char_boundary_iff_not_is_continuation_byte(b, cut as int);
            }
        }
        let (front, back) = rest.split_at(cut);
        proof {
            assert(front.spec_bytes() == b.subrange(0, cut as int));
            assert(message_pieces(b) =~= seq![b.subrange(0, cut as int)] + message_pieces(back.spec_bytes()));
            vstd::utf8::decode_utf8_encode_utf8(front.spec_bytes());
        }
        let ghost old_out = out@;
        let piece = front.to_owned();
        proof {
            assert(message_pieces(b)[0] == b.subrange(0, cut as int));
            assert(message_pieces(whole)[old_out.len() + 0int] == message_pieces(b)[0]);
            assert(encode_utf8(piece@) == b.subrange(0, cut as int));
        }
        out.push(piece);
        proof {
            assert forall|i: int| 0 <= i < out@.len() implies encode_utf8(#[trigger] out@[i]@)
                == message_pieces(whole)[i] by {
                if i < old_out.len() {
                    assert(out@[i] == old_out[i]);
                }
            }
            assert forall|i: int| 0 <= i < message_pieces(back.spec_bytes()).len() implies message_pieces(
                whole,
            )[out@.len() + i] == #[trigger] message_pieces(back.spec_bytes())[i] by {
                assert(message_pieces(b)[i + 1] == message_pieces(back.spec_bytes())[i]);
                assert(message_pieces(whole)[old_out.len() + (i + 1)] == message_pieces(b)[i + 1]);
            }
        }
        rest = back;
    }
    let ghost old_out = out@;
    let last = rest.to_owned();
    proof {
        assert(rest.spec_bytes().len() <= MESSAGE_LIMIT);
        assert(message_pieces(rest.spec_bytes())[0] == rest.spec_bytes());
        assert(message_pieces(whole)[old_out.len() + 0int] == message_pieces(rest.spec_bytes())[0]);
    }
    out.push(last);
    proof {
        assert forall|i: int| 0 <= i < out@.len() implies encode_utf8(#[trigger] out@[i]@)
            == message_pieces(whole)[i] by {
            if i < old_out.len() {
                assert(out@[i] == old_out[i]);
            }
        }
        assert(message_pieces(rest.spec_bytes()) =~= seq![rest.spec_bytes()]);
    }
    out
}

/// Whether a reply can be cut into messages (see `message_cuttable`): each
/// cut at the limit falls between characters, and each cut at a newline
/// is not at the very start.
pub fn can_split_response(response: &str) -> (res: bool)
    ensures
        res == message_cuttable(response.spec_bytes()),
{
    let mut rest: &str = response;
    while rest.as_bytes().len() > MESSAGE_LIMIT
        invariant
            message_cuttable(response.spec_bytes()) == message_cuttable(rest.spec_bytes()),
        decreases rest.spec_bytes().len(),
    {
        let bytes = rest.as_bytes();
        let ghost b = rest.spec_bytes();
        proof {
            lemma_last_newline_bounds(b, MESSAGE_LIMIT as int);
            assert(valid_utf8(b));
            vstd::utf8::is_char_boundary_iff_not_is_continuation_byte(b, MESSAGE_LIMIT as int);
        }
        let lead = bytes[MESSAGE_LIMIT];
        if 0x80u8 <= lead && lead <= 0xbfu8 {
            return false;
        }
        let mut k: usize = MESSAGE_LIMIT;
        let mut cut: usize = MESSAGE_LIMIT;
        while k > 0
            invariant_except_break
                last_newline_before(b, MESSAGE_LIMIT as int) == last_newline_before(b, k as int),
                cut == MESSAGE_LIMIT,
            invariant
                bytes@ == b,
                b.len() > MESSAGE_LIMIT,
                k <= MESSAGE_LIMIT,
            ensures
                cut as int == message_cut(b),
            decreases k,
        {
            if bytes[k - 1] == 10u8 {
                cut = k - 1;
                break;
            }
            k = k - 1;
        }
        if cut == 0 {
            return false;
        }
        proof {
            if cut < MESSAGE_LIMIT {
                assert(b[cut as int] == 10u8);
                vstd::utf8::is_char_boundary_iff_not_is_continuation_byte(b, cut as int);
            }
        }
        let (_front, back) = rest.split_at(cut);
        assert(back.spec_bytes() == b.subrange(cut as int, b.len() as int));
        rest = back;
    }
    true
}

/// Sending the pieces one after the other delivers exactly the message:
/// their concatenation is the whole message, there is at least one piece,
/// and every piece but the last is at most `MESSAGE_LIMIT` bytes long and
/// not empty.
pub proof fn lemma_pieces_reassemble(b: Seq<u8>)
    requires
        message_cuttable(b),
    ensures
        message_pieces(b).len() >= 1,
        message_pieces(b).flatten() == b,
        forall|i: int|
            0 <= i < message_pieces(b).len() - 1 ==> 0 < (#[trigger] message_pieces(b)[i]).len()
                <= MESSAGE_LIMIT,
    decreases b.len(),
{
    if b.len() <= MESSAGE_LIMIT {
        let ps = message_pieces(b);
        assert(ps.drop_first() =~= Seq::<Seq<u8>>::empty());
        assert(ps.drop_first().flatten() =~= Seq::<u8>::empty());
        assert(ps.first() == b);
        assert(ps.flatten() == ps.first() + ps.drop_first().flatten());
        assert(ps.flatten() =~= b);
    } else {
        lemma_last_newline_bounds(b, MESSAGE_LIMIT as int);
        let c = message_cut(b);
        let rest = b.subrange(c, b.len() as int);
        lemma_pieces_reassemble(rest);
        let ps = message_pieces(b);
        assert(ps.drop_first() =~= message_pieces(rest));
        assert(ps.flatten() =~= b.subrange(0, c) + rest);
        assert(b.subrange(0, c) + rest =~= b);
        assert forall|i: int| 0 <= i < ps.len() - 1 implies 0 < (#[trigger] ps[i]).len()
            <= MESSAGE_LIMIT by {
            if i > 0 {
                assert(ps[i] == message_pieces(rest)[i - 1]);
            }
        }
    }
}

/// Whether an attachment of `length` bytes must be zipped before sending.
pub fn attachment_needs_zip(length: u64) -> (res: bool)
    ensures
        res == (length > 10 * 1024 * 1024),
{
    length > ATTACHMENT_ZIP_THRESHOLD
}


pub open spec fn digit_char(d: nat) -> char {
    if d == 0 {
        '0'
    } else if d == 1 {
        '1'
    } else if d == 2 {
        '2'
    } else if d == 3 {
        '3'
    } else if d == 4 {
        '4'
    } else if d == 5 {
        '5'
    } else if d == 6 {
        '6'
    } else if d == 7 {
        '7'
    } else if d == 8 {
        '8'
    } else {
        '9'
    }
}

/// The decimal digits of `n`, most significant first, without leading zeros.
pub open spec fn decimal(n: nat) -> Seq<char>
    decreases n,
{
    if n < 10 {
        seq![digit_char(n)]
    } else {
        decimal(n / 10).push(digit_char(n % 10))
    }
}

/// An integer in decimal, with a leading `-` when negative.
pub open spec fn signed_decimal(n: int) -> Seq<char> {
    if n < 0 {
        seq!['-'] + decimal((-n) as nat)
    } else {
        decimal(n as nat)
    }
}

fn digit(d: u64) -> (c: char)
    requires
        d < 10,
    ensures
        c == digit_char(d as nat),
{
    if d == 0 {
        '0'
    } else if d == 1 {
        '1'
    } else if d == 2 {
        '2'
    } else if d == 3 {
        '3'
    } else if d == 4 {
        '4'
    } else if d == 5 {
        '5'
    } else if d == 6 {
        '6'
    } else if d == 7 {
        '7'
    } else if d == 8 {
        '8'
    } else {
        '9'
    }
}

fn append_decimal(s: &mut String, n: u64)
    ensures
        final(s)@ == old(s)@ + decimal(n as nat),
    decreases n,
{
    if n < 10 {
        push_char(s, digit(n));
    } else {
        append_decimal(s, n / 10);
        push_char(s, digit(n % 10));
    }
}

/// `n` in decimal.
pub fn u64_to_text(n: u64) -> (res: String)
    ensures
        res@ == decimal(n as nat),
{
    let mut s = String::new();
    append_decimal(&mut s, n);
    assert(s@ =~= decimal(n as nat));
    s
}

/// `n` in decimal, with a leading `-` when negative.
pub fn i64_to_text(n: i64) -> (res: String)
    ensures
        res@ == signed_decimal(n as int),
{
    let mut s = String::new();
    if n < 0 {
        push_char(&mut s, '-');
        let m: u64 = ((-(n + 1)) as u64) + 1;
        append_decimal(&mut s, m);
    } else {
        append_decimal(&mut s, n as u64);
    }
    assert(s@ =~= signed_decimal(n as int));
    s
}

/// "true" or "false".
pub open spec fn bool_text(b: bool) -> Seq<char> {
    if b {
        "true"@
    } else {
        "false"@
    }
}

/// Strict lexicographic order on character sequences, characters compared by
/// their code points (the order of `String`s).
pub open spec fn lex_lt(a: Seq<char>, b: Seq<char>) -> bool
    decreases a.len(),
{
    if a.len() == 0 {
        b.len() > 0
    } else if b.len() == 0 {
        false
    } else if a[0] != b[0] {
        a[0] < b[0]
    } else {
        lex_lt(a.drop_first(), b.drop_first())
    }
}

/// Whether `a` comes strictly before `b` in string order.
pub fn str_lt(a: &str, b: &str) -> (res: bool)
    ensures
        res == lex_lt(a@, b@),
{
    let n = a.unicode_len();
    let m = b.unicode_len();
    let mut i: usize = 0;
    proof {
        assert(a@.subrange(0, n as int) =~= a@);
        assert(b@.subrange(0, m as int) =~= b@);
    }
    while i < n && i < m
        invariant
            n == a@.len(),
            m == b@.len(),
            i <= n,
            i <= m,
            lex_lt(a@, b@) == lex_lt(a@.subrange(i as int, n as int), b@.subrange(i as int, m as int)),
        decreases n - i,
    {
        let x = a.get_char(i);
        let y = b.get_char(i);
        let ghost sa = a@.subrange(i as int, n as int);
        let ghost sb = b@.subrange(i as int, m as int);
        assert(sa[0] == x && sb[0] == y);
        if x != y {
            return x < y;
        }
        assert(sa.drop_first() =~= a@.subrange(i + 1, n as int));
        assert(sb.drop_first() =~= b@.subrange(i + 1, m as int));
        i = i + 1;
    }
    i == n && i < m
}

/// Inserts `x` into a sorted sequence after every element not greater
/// than it.
pub open spec fn insert_sorted(s: Seq<Seq<char>>, x: Seq<char>) -> Seq<Seq<char>>
    decreases s.len(),
{
    if s.len() == 0 {
        seq![x]
    } else if lex_lt(x, s.last()) {
        insert_sorted(s.drop_last(), x).push(s.last())
    } else {
        s.push(x)
    }
}

/// The strings of `s` in string order (insertion sort).
pub open spec fn sort_seq(s: Seq<Seq<char>>) -> Seq<Seq<char>>
    decreases s.len(),
{
    if s.len() == 0 {
        Seq::empty()
    } else {
        insert_sorted(sort_seq(s.drop_last()), s.last())
    }
}

pub open spec fn string_views(v: Seq<String>) -> Seq<Seq<char>> {
    v.map_values(|x: String| x@)
}

fn insert_sorted_exec(v: &mut Vec<String>, x: String)
    ensures
        string_views(final(v)@) == insert_sorted(string_views(old(v)@), x@),
{
    let mut k: usize = v.len();
    proof {
        assert(string_views(v@).subrange(0, k as int) =~= string_views(v@));
    }
    while k > 0 && str_lt(x.as_str(), v[k - 1].as_str())
        invariant
            k <= v@.len(),
            v@ == old(v)@,
            insert_sorted(string_views(v@), x@) == insert_sorted(
                string_views(v@).subrange(0, k as int),
                x@,
            ) + string_views(v@).subrange(k as int, v@.len() as int),
        decreases k,
    {
        proof {
            let pre = string_views(v@).subrange(0, k as int);
            assert(pre.last() == v@[k - 1]@);
            assert(pre.drop_last() =~= string_views(v@).subrange(0, k - 1));
            assert(string_views(v@).subrange(k - 1, v@.len() as int) =~= seq![pre.last()]
                + string_views(v@).subrange(k as int, v@.len() as int));
            assert(insert_sorted(pre, x@) == insert_sorted(pre.drop_last(), x@).push(pre.last()));
            assert(insert_sorted(pre.drop_last(), x@).push(pre.last()) + string_views(v@).subrange(
                k as int,
                v@.len() as int,
            ) =~= insert_sorted(pre.drop_last(), x@) + string_views(v@).subrange(
                k - 1,
                v@.len() as int,
            ));
        }
        k = k - 1;
    }
    proof {
        let pre = string_views(v@).subrange(0, k as int);
        if k > 0 {
            assert(pre.last() == v@[k - 1]@);
            assert(!lex_lt(x@, pre.last()));
            assert(insert_sorted(pre, x@) == pre.push(x@));
        } else {
            assert(insert_sorted(pre, x@) == seq![x@]);
        }
    }
    let ghost before = v@;
    v.insert(k, x);
    proof {
        assert(string_views(v@) =~= string_views(before).subrange(0, k as int).push(x@)
            + string_views(before).subrange(k as int, before.len() as int));
    }
}

/// The strings in string order.
pub fn sort_strings(v: Vec<String>) -> (res: Vec<String>)
    ensures
        string_views(res@) == sort_seq(string_views(v@)),
{
    let mut out: Vec<String> = Vec::new();
    let mut i: usize = 0;
    let mut v = v;
    let ghost orig = v@;
    while i < v.len()
        invariant
            v@ == orig,
            i <= v@.len(),
            string_views(out@) == sort_seq(string_views(v@).subrange(0, i as int)),
        decreases v@.len() - i,
    {
        let x = v[i].clone();
        proof {
            let t = string_views(v@).subrange(0, i + 1);
            assert(t.drop_last() =~= string_views(v@).subrange(0, i as int));
            assert(t.last() == x@);
        }
        insert_sorted_exec(&mut out, x);
        i = i + 1;
    }
    proof {
        assert(string_views(v@).subrange(0, i as int) =~= string_views(v@));
    }
    out
}

/// The strings of `list` with `sep` between each two.
pub open spec fn join(list: Seq<Seq<char>>, sep: Seq<char>) -> Seq<char>
    decreases list.len(),
{
    if list.len() == 0 {
        Seq::empty()
    } else if list.len() == 1 {
        list[0]
    } else {
        join(list.drop_last(), sep) + sep + list.last()
    }
}

/// The strings of `list` with `sep` between each two.
pub fn join_strings(list: &Vec<String>, sep: &str) -> (res: String)
    ensures
        res@ == join(string_views(list@), sep@),
{
    let mut res = String::new();
    let mut i: usize = 0;
    while i < list.len()
        invariant
            i <= list@.len(),
            res@ == join(string_views(list@).subrange(0, i as int), sep@),
        decreases list@.len() - i,
    {
        proof {
            let t = string_views(list@).subrange(0, i + 1);
            assert(t.drop_last() =~= string_views(list@).subrange(0, i as int));
            assert(t.last() == list@[i as int]@);
        }
        if i > 0 {
            res.append(sep);
        }
        res.append(list[i].as_str());
        proof {
            if i == 0 {
                assert(res@ =~= join(string_views(list@).subrange(0, 1), sep@));
            }
        }
        i = i + 1;
    }
    proof {
        assert(string_views(list@).subrange(0, i as int) =~= string_views(list@));
    }
    res
}


/// Every string comes no earlier than the one before it.
pub open spec fn is_sorted(s: Seq<Seq<char>>) -> bool {
    forall|i: int, j: int| 0 <= i < j < s.len() ==> !lex_lt(#[trigger] s[j], #[trigger] s[i])
}

proof fn lemma_lex_lt_irreflexive(a: Seq<char>)
    ensures
        !lex_lt(a, a),
    decreases a.len(),
{
    if a.len() > 0 {
        lemma_lex_lt_irreflexive(a.drop_first());
    }
}

proof fn lemma_lex_lt_transitive(a: Seq<char>, b: Seq<char>, c: Seq<char>)
    requires
        lex_lt(a, b),
        lex_lt(b, c),
    ensures
        lex_lt(a, c),
    decreases a.len(),
{
    if a.len() > 0 && b.len() > 0 && c.len() > 0 {
        if a[0] == b[0] && b[0] == c[0] {
            lemma_lex_lt_transitive(a.drop_first(), b.drop_first(), c.drop_first());
        }
    }
}

proof fn lemma_lex_lt_total(a: Seq<char>, b: Seq<char>)
    ensures
        a == b || lex_lt(a, b) || lex_lt(b, a),
    decreases a.len(),
{
    if a.len() > 0 && b.len() > 0 {
        if a[0] == b[0] {
            lemma_lex_lt_total(a.drop_first(), b.drop_first());
            if a.drop_first() == b.drop_first() {
                assert(a =~= seq![a[0]] + a.drop_first());
                assert(b =~= seq![b[0]] + b.drop_first());
            }
        }
    } else if a.len() == 0 && b.len() == 0 {
        assert(a =~= b);
    }
}

proof fn lemma_lex_lt_asymmetric(a: Seq<char>, b: Seq<char>)
    requires
        lex_lt(a, b),
    ensures
        !lex_lt(b, a),
{
    if lex_lt(b, a) {
        lemma_lex_lt_transitive(a, b, a);
        lemma_lex_lt_irreflexive(a);
    }
}

proof fn lemma_insert_sorted(s: Seq<Seq<char>>, x: Seq<char>)
    requires
        is_sorted(s),
    ensures
        is_sorted(insert_sorted(s, x)),
        insert_sorted(s, x).to_multiset() == s.to_multiset().insert(x),
        insert_sorted(s, x).len() == s.len() + 1,
    decreases s.len(),
{
    broadcast use vstd::seq_lib::group_to_multiset_ensures;

    if s.len() == 0 {
        assert(insert_sorted(s, x) =~= seq![x]);
        assert(s.to_multiset() =~= vstd::multiset::Multiset::empty());
        assert(seq![x] =~= s.push(x));
    } else if lex_lt(x, s.last()) {
        let p = s.drop_last();
        assert(is_sorted(p)) by {
            assert forall|i: int, j: int| 0 <= i < j < p.len() implies !lex_lt(#[trigger] p[j], #[trigger] p[i]) by {
                assert(p[i] == s[i] && p[j] == s[j]);
            }
        }
        lemma_insert_sorted(p, x);
        let q = insert_sorted(p, x);
        let r = q.push(s.last());
        assert(insert_sorted(s, x) == r);
        assert(s =~= p.push(s.last()));
        assert forall|i: int, j: int| 0 <= i < j < r.len() implies !lex_lt(#[trigger] r[j], #[trigger] r[i]) by {
            if j == r.len() - 1 {
                assert(r[j] == s.last());
                // r[i] is an element of p or x: neither is after s.last()
                assert(q.to_multiset().count(r[i]) > 0) by {
                    assert(r[i] == q[i]);
                }
                assert(p.to_multiset().insert(x).count(r[i]) > 0);
                if r[i] == x {
                    lemma_lex_lt_asymmetric(x, s.last());
                } else {
                    assert(p.to_multiset().count(r[i]) > 0);
                    assert(p.contains(r[i]));
                    let k = choose|k: int| 0 <= k < p.len() && p[k] == r[i];
                    assert(s[k] == p[k]);
                    assert(!lex_lt(s[s.len() - 1], s[k]));
                }
            } else {
                assert(r[i] == q[i] && r[j] == q[j]);
            }
        }
    } else {
        assert forall|i: int, j: int| 0 <= i < j < s.push(x).len() implies !lex_lt(
            #[trigger] s.push(x)[j],
            #[trigger] s.push(x)[i],
        ) by {
            if j == s.len() {
                if i < s.len() - 1 {
                    assert(!lex_lt(s.last(), s[i]));
                    lemma_lex_lt_total(s[i], s.last());
                    if lex_lt(x, s[i]) {
                        if s[i] == s.last() {
                        } else {
                            lemma_lex_lt_transitive(x, s[i], s.last());
                        }
                    }
                }
            } else {
                assert(s.push(x)[i] == s[i] && s.push(x)[j] == s[j]);
            }
        }
    }
}

/// Sorting yields the same strings (as a multiset), in string order.
pub proof fn lemma_sort_sorted_permutation(s: Seq<Seq<char>>)
    ensures
        is_sorted(sort_seq(s)),
        sort_seq(s).to_multiset() == s.to_multiset(),
        sort_seq(s).len() == s.len(),
    decreases s.len(),
{
    broadcast use vstd::seq_lib::group_to_multiset_ensures;

    if s.len() == 0 {
        assert(sort_seq(s) =~= Seq::<Seq<char>>::empty());
    } else {
        lemma_sort_sorted_permutation(s.drop_last());
        lemma_insert_sorted(sort_seq(s.drop_last()), s.last());
        assert(s =~= s.drop_last().push(s.last()));
    }
}

} // verus!
