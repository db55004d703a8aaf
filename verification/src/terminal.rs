//! Terminal escape sequences: base64 for the OSC 52 clipboard sequence and
//! the cursor shape and colour sequences, wrapped for tmux and GNU screen
//! when the editor runs inside them.

use crate::edtui::EditorMode;
use crate::markdown::{replace_all, replace_into};
use crate::math::number::{dec_text, radix_chars};
use crate::text::{chars_to_string, push_chars, str_to_chars};
use vstd::prelude::*;

verus! {

/// The base64 digit for `v` (0 to 63): `A`-`Z`, `a`-`z`, `0`-`9`, `+`, `/`.
pub open spec fn b64_char(v: int) -> char {
    if v < 26 {
        (65 + v) as char
    } else if v < 52 {
        (97 + v - 26) as char
    } else if v < 62 {
        (48 + v - 52) as char
    } else if v == 62 {
        '+'
    } else {
        '/'
    }
}

/// The four characters that encode a group of one to three bytes; a
/// missing byte counts as zero and its character becomes `=`.
pub open spec fn b64_quad(g: Seq<u8>) -> Seq<char> {
    let x0 = g[0] as int;
    let x1 = if g.len() > 1 { g[1] as int } else { 0 };
    let x2 = if g.len() > 2 { g[2] as int } else { 0 };
    let b = x0 * 65536 + x1 * 256 + x2;
    seq![
        b64_char(b / 262144),
        b64_char((b / 4096) % 64),
        if g.len() > 1 { b64_char((b / 64) % 64) } else { '=' },
        if g.len() > 2 { b64_char(b % 64) } else { '=' },
    ]
}

/// Standard base64 with padding: each group of three bytes, the last one
/// possibly shorter, becomes four characters.
pub open spec fn base64_spec(s: Seq<u8>) -> Seq<char>
    decreases s.len(),
{
    if s.len() == 0 {
        Seq::<char>::empty()
    } else if s.len() <= 3 {
        b64_quad(s)
    } else {
        b64_quad(s.take(3)) + base64_spec(s.skip(3))
    }
}

fn b64_digit(v: u32) -> (c: char)
    requires
        v < 64,
    ensures
        c == b64_char(v as int),
{
    if v < 26 {
        ((65 + v) as u8) as char
    } else if v < 52 {
        ((97 + v - 26) as u8) as char
    } else if v < 62 {
        ((48 + v - 52) as u8) as char
    } else if v == 62 {
        '+'
    } else {
        '/'
    }
}

fn push_quad(out: &mut Vec<char>, g: &[u8])
    requires
        1 <= g@.len() <= 3,
    ensures
        final(out)@ == old(out)@ + b64_quad(g@),
{
    let len = g.len();
    let x0 = g[0] as u32;
    let x1 = if len > 1 { g[1] as u32 } else { 0 };
    let x2 = if len > 2 { g[2] as u32 } else { 0 };
    let b: u32 = x0 * 65536 + x1 * 256 + x2;
    out.push(b64_digit(b / 262144));
    out.push(b64_digit((b / 4096) % 64));
    if len > 1 {
        out.push(b64_digit((b / 64) % 64));
    } else {
        out.push('=');
    }
    if len > 2 {
        out.push(b64_digit(b % 64));
    } else {
        out.push('=');
    }
    assert(out@ =~= old(out)@ + b64_quad(g@));
}

/// The base64 text has four characters for every started group of three
/// bytes.
pub proof fn lemma_base64_len(s: Seq<u8>)
    ensures
        base64_spec(s).len() == 4 * ((s.len() + 2) / 3),
    decreases s.len(),
{
    if s.len() > 3 {
        lemma_base64_len(s.skip(3));
    }
}

/// Encodes `input` in base64 (see `base64_spec`).
pub fn encode_base64(input: &[u8]) -> (r: String)
    ensures
        r@ == base64_spec(input@),
        r@.len() == 4 * ((input@.len() + 2) / 3),
{
    let mut out: Vec<char> = Vec::new();
    let mut i: usize = 0;
    let n = input.len();
    assert(input@.skip(0) =~= input@);
    while i < n
        invariant
            n == input@.len(),
            i <= n,
            out@ + base64_spec(input@.skip(i as int)) == base64_spec(input@),
        decreases n - i,
    {
        let end = if n - i < 3 { n } else { i + 3 };
        push_quad(&mut out, &input[i..end]);
        proof {
            let rest = input@.skip(i as int);
            let g = input@.subrange(i as int, end as int);
            if rest.len() <= 3 {
                assert(rest =~= g);
                assert(input@.skip(end as int) =~= Seq::<u8>::empty());
            } else {
                assert(rest.take(3) =~= g);
                assert(rest.skip(3) =~= input@.skip(end as int));
            }
        }
        i = end;
    }
    proof {
        assert(input@.skip(i as int) =~= Seq::<u8>::empty());
        assert(out@ =~= base64_spec(input@));
        lemma_base64_len(input@);
    }
    chars_to_string(out.as_slice())
}

/// The escape character.
pub open spec fn esc() -> char {
    '\x1b'
}

/// The sequence that sets cursor shape `n`, as a terminal reads it, inside
/// tmux (passed through with a doubled escape) or inside GNU screen.
pub open spec fn cursor_shape_spec(n: nat, inside_tmux: bool, inside_screen: bool) -> Seq<char> {
    let csi = seq![esc(), '['] + dec_text(n) + seq![' ', 'q'];
    if inside_tmux {
        seq![esc(), 'P', 't', 'm', 'u', 'x', ';', esc()] + csi + seq![esc(), '\\']
    } else if inside_screen {
        seq![esc(), 'P', esc()] + csi + seq![esc(), '\\']
    } else {
        csi
    }
}

/// The cursor shape sequence for shape number `shape_num` (see
/// `cursor_shape_spec`).
pub fn cursor_shape_sequence(shape_num: u8, inside_tmux: bool, inside_screen: bool) -> (r: String)
    ensures
        r@ == cursor_shape_spec(shape_num as nat, inside_tmux, inside_screen),
{
    let mut out: Vec<char> = Vec::new();
    if inside_tmux {
        push_chars(&mut out, &['\x1b', 'P', 't', 'm', 'u', 'x', ';', '\x1b']);
    } else if inside_screen {
        push_chars(&mut out, &['\x1b', 'P', '\x1b']);
    }
    out.push('\x1b');
    out.push('[');
    let digits = radix_chars(shape_num as u128, 10);
    push_chars(&mut out, digits.as_slice());
    out.push(' ');
    out.push('q');
    if inside_tmux || inside_screen {
        out.push('\x1b');
        out.push('\\');
    }
    proof {
        assert(out@ =~= cursor_shape_spec(shape_num as nat, inside_tmux, inside_screen));
    }
    chars_to_string(out.as_slice())
}

/// The OSC sequence that sets the cursor colour to `color`, or resets it
/// when `color` is empty.
pub open spec fn color_osc(color: Seq<char>) -> Seq<char> {
    if color.len() == 0 {
        seq![esc(), ']', '1', '1', '2', '\x07']
    } else {
        seq![esc(), ']', '1', '2', ';'] + color + seq!['\x07']
    }
}

/// The cursor colour sequence as a terminal reads it: inside tmux or GNU
/// screen it is wrapped in a pass-through with every escape doubled.
pub open spec fn cursor_color_spec(color: Seq<char>, inside_tmux: bool, inside_screen: bool) -> Seq<char> {
    let raw = color_osc(color);
    let doubled = replace_all(raw, seq![esc()], seq![esc(), esc()]);
    if inside_tmux {
        seq![esc(), 'P', 't', 'm', 'u', 'x', ';', esc()] + doubled + seq![esc(), '\\']
    } else if inside_screen {
        seq![esc(), 'P'] + doubled + seq![esc(), '\\']
    } else {
        raw
    }
}

/// The cursor colour sequence for `color_str` (see `cursor_color_spec`).
pub fn cursor_color_sequence(color_str: &str, inside_tmux: bool, inside_screen: bool) -> (r: String)
    ensures
        r@ == cursor_color_spec(color_str@, inside_tmux, inside_screen),
{
    let color = str_to_chars(color_str);
    let mut raw: Vec<char> = Vec::new();
    if color.len() == 0 {
        push_chars(&mut raw, &['\x1b', ']', '1', '1', '2', '\x07']);
    } else {
        push_chars(&mut raw, &['\x1b', ']', '1', '2', ';']);
        push_chars(&mut raw, color.as_slice());
        raw.push('\x07');
    }
    assert(raw@ =~= color_osc(color_str@));
    if !inside_tmux && !inside_screen {
        return chars_to_string(raw.as_slice());
    }
    let mut out: Vec<char> = Vec::new();
    if inside_tmux {
        push_chars(&mut out, &['\x1b', 'P', 't', 'm', 'u', 'x', ';', '\x1b']);
    } else {
        push_chars(&mut out, &['\x1b', 'P']);
    }
    let ghost before = out@;
    let pat: [char; 1] = ['\x1b'];
    let rep: [char; 2] = ['\x1b', '\x1b'];
    assert(pat@ =~= seq![esc()]);
    assert(rep@ =~= seq![esc(), esc()]);
    replace_into(&mut out, raw.as_slice(), &pat, &rep);
    assert(out@ == before + replace_all(raw@, seq![esc()], seq![esc(), esc()]));
    out.push('\x1b');
    out.push('\\');
    proof {
        assert(out@ =~= cursor_color_spec(color_str@, inside_tmux, inside_screen));
    }
    chars_to_string(out.as_slice())
}

/// The cursor shape for each editor mode: a blinking block in normal and
/// search mode, a blinking bar in insert mode, a steady block in visual mode.
pub fn cursor_shape_for(mode: EditorMode) -> (n: u8)
    ensures
        n == match mode {
            EditorMode::Normal => 1u8,
            EditorMode::Insert => 5u8,
            EditorMode::Visual => 2u8,
            EditorMode::Search => 1u8,
        },
{
    match mode {
        EditorMode::Normal => 1,
        EditorMode::Insert => 5,
        EditorMode::Visual => 2,
        EditorMode::Search => 1,
    }
}

/// The cursor colour for each editor mode: blue, green, purple, orange.
pub fn cursor_color_for(mode: EditorMode) -> (c: &'static str)
    ensures
        c@ == match mode {
            EditorMode::Normal => "#7aa2f7"@,
            EditorMode::Insert => "#9ece6a"@,
            EditorMode::Visual => "#bb9af7"@,
            EditorMode::Search => "#ff9e64"@,
        },
{
    match mode {
        EditorMode::Normal => "#7aa2f7",
        EditorMode::Insert => "#9ece6a",
        EditorMode::Visual => "#bb9af7",
        EditorMode::Search => "#ff9e64",
    }
}

} // verus!
