//! The persisted window-geometry record and its on-disk form.
//!
//! The record is stored as a single JSON object
//! `{"x":..,"y":..,"width":..,"height":..,"maximized":..}`. [`WindowState::to_json`]
//! produces that object; [`WindowState::from_json`] reads it back, accepting
//! the members in any order and with any interleaved JSON whitespace, and
//! answering `None` for anything else: a missing, repeated or unknown member,
//! a value of the wrong shape or out of range, or trailing content. Callers
//! fold every reading failure into "no stored geometry".

use vstd::prelude::*;

verus! {

/// A window's last known normal rectangle, plus whether the window was
/// maximized. `x`, `y`, `width` and `height` always describe the normal
/// (non-minimized, non-maximized) rectangle, never the maximized bounds, so
/// that a later restore to the normal rectangle stays possible.
#[derive(Clone, Copy, Debug, PartialEq, Eq, Structural)]
pub struct WindowState {
    pub x: i32,
    pub y: i32,
    pub width: u32,
    pub height: u32,
    pub maximized: bool,
}

/// `{`
pub const LBRACE: u8 = 123;

/// `}`
pub const RBRACE: u8 = 125;

/// `"`
pub const QUOTE: u8 = 34;

/// `:`
pub const COLON: u8 = 58;

/// `,`
pub const COMMA: u8 = 44;

/// `-`
pub const MINUS: u8 = 45;

/// The decimal digits of `n`, most significant first, no sign and no leading
/// zero (a lone `0` for zero).
pub open spec fn dec_digits(n: nat) -> Seq<u8>
    decreases n,
{
    if n < 10 {
        seq![(48 + n) as u8]
    } else {
        dec_digits(n / 10).push((48 + n % 10) as u8)
    }
}

/// The decimal form of `x`: its digits, preceded by `-` when negative.
pub open spec fn int_bytes(x: int) -> Seq<u8> {
    if x < 0 {
        seq![MINUS] + dec_digits((-x) as nat)
    } else {
        dec_digits(x as nat)
    }
}

/// The JSON form of a boolean: `true` or `false`.
pub open spec fn bool_bytes(b: bool) -> Seq<u8> {
    if b {
        seq![116, 114, 117, 101]
    } else {
        seq![102, 97, 108, 115, 101]
    }
}

/// The serialized form of a geometry record: one JSON object holding the five
/// members in this fixed order, without any whitespace.
pub open spec fn spec_encode(g: WindowState) -> Seq<u8> {
    seq![LBRACE, QUOTE, 120, QUOTE, COLON] + int_bytes(g.x as int) + seq![COMMA, QUOTE, 121, QUOTE, COLON]
        + int_bytes(g.y as int) + seq![COMMA, QUOTE, 119, 105, 100, 116, 104, QUOTE, COLON]
        + dec_digits(g.width as nat) + seq![
        COMMA,
        QUOTE,
        104,
        101,
        105,
        103,
        104,
        116,
        QUOTE,
        COLON,
    ] + dec_digits(g.height as nat) + seq![
        COMMA,
        QUOTE,
        109,
        97,
        120,
        105,
        109,
        105,
        122,
        101,
        100,
        QUOTE,
        COLON,
    ] + bool_bytes(g.maximized) + seq![RBRACE]
}

/// Append the decimal digits of `n`.
fn push_u32_digits(out: &mut Vec<u8>, n: u32)
    ensures
        final(out)@ == old(out)@ + dec_digits(n as nat),
    decreases n,
{
    if n < 10 {
        out.push(48 + (n as u8));
    } else {
        push_u32_digits(out, n / 10);
        out.push(48 + ((n % 10) as u8));
        proof {
            assert(final(out)@ =~= old(out)@ + dec_digits(n as nat));
        }
    }
}

/// Append the decimal form of `x`, preceded by `-` when negative.
fn push_i32_bytes(out: &mut Vec<u8>, x: i32)
    ensures
        final(out)@ == old(out)@ + int_bytes(x as int),
{
    if x >= 0 {
        push_u32_digits(out, x as u32);
    } else {
        out.push(MINUS);
        let mag: u32 = (-(x as i64)) as u32;
        push_u32_digits(out, mag);
        proof {
            assert(mag as nat == (-(x as int)) as nat);
            assert(final(out)@ =~= old(out)@ + int_bytes(x as int));
        }
    }
}

impl WindowState {
    /// Serialize the record as its JSON object, the exact byte sequence
    /// [`spec_encode`] describes.
    #[verifier::rlimit(60)]
    pub fn to_json(&self) -> (r: Vec<u8>)
        ensures
            r@ == spec_encode(*self),
    {
        let ghost gx = int_bytes(self.x as int);
        let ghost gy = int_bytes(self.y as int);
        let ghost gw = dec_digits(self.width as nat);
        let ghost gh = dec_digits(self.height as nat);
        let ghost gm = bool_bytes(self.maximized);
        let mut out: Vec<u8> = Vec::new();
        out.push(LBRACE);
        out.push(QUOTE);
        out.push(120);
        out.push(QUOTE);
        out.push(COLON);
        let ghost s1 = seq![LBRACE, QUOTE, 120u8, QUOTE, COLON];
        proof {
            assert(out@ =~= s1);
        }
        push_i32_bytes(&mut out, self.x);
        out.push(COMMA);
        out.push(QUOTE);
        out.push(121);
        out.push(QUOTE);
        out.push(COLON);
        let ghost s2 = s1 + gx + seq![COMMA, QUOTE, 121u8, QUOTE, COLON];
        proof {
            assert(out@ =~= s2);
        }
        push_i32_bytes(&mut out, self.y);
        out.push(COMMA);
        out.push(QUOTE);
        out.push(119);
        out.push(105);
        out.push(100);
        out.push(116);
        out.push(104);
        out.push(QUOTE);
        out.push(COLON);
        let ghost s3 = s2 + gy + seq![COMMA, QUOTE, 119u8, 105u8, 100u8, 116u8, 104u8, QUOTE, COLON];
        proof {
            assert(out@ =~= s3);
        }
        push_u32_digits(&mut out, self.width);
        out.push(COMMA);
        out.push(QUOTE);
        out.push(104);
        out.push(101);
        out.push(105);
        out.push(103);
        out.push(104);
        out.push(116);
        out.push(QUOTE);
        out.push(COLON);
        let ghost s4 = s3 + gw + seq![COMMA, QUOTE, 104u8, 101u8, 105u8, 103u8, 104u8, 116u8, QUOTE, COLON];
        proof {
            assert(out@ =~= s4);
        }
        push_u32_digits(&mut out, self.height);
        out.push(COMMA);
        out.push(QUOTE);
        out.push(109);
        out.push(97);
        out.push(120);
        out.push(105);
        out.push(109);
        out.push(105);
        out.push(122);
        out.push(101);
        out.push(100);
        out.push(QUOTE);
        out.push(COLON);
        let ghost s5 = s4 + gh + seq![
            COMMA,
            QUOTE,
            109u8,
            97u8,
            120u8,
            105u8,
            109u8,
            105u8,
            122u8,
            101u8,
            100u8,
            QUOTE,
            COLON,
        ];
        proof {
            assert(out@ =~= s5);
        }
        if self.maximized {
            out.push(116);
            out.push(114);
            out.push(117);
            out.push(101);
        } else {
            out.push(102);
            out.push(97);
            out.push(108);
            out.push(115);
            out.push(101);
        }
        out.push(RBRACE);
        proof {
            assert(out@ =~= s5 + gm + seq![RBRACE]);
            assert(spec_encode(*self) == s1 + gx + seq![COMMA, QUOTE, 121u8, QUOTE, COLON] + gy
                + seq![COMMA, QUOTE, 119u8, 105u8, 100u8, 116u8, 104u8, QUOTE, COLON] + gw + seq![
                COMMA,
                QUOTE,
                104u8,
                101u8,
                105u8,
                103u8,
                104u8,
                116u8,
                QUOTE,
                COLON,
            ] + gh + seq![
                COMMA,
                QUOTE,
                109u8,
                97u8,
                120u8,
                105u8,
                109u8,
                105u8,
                122u8,
                101u8,
                100u8,
                QUOTE,
                COLON,
            ] + gm + seq![RBRACE]);
            assert(out@ =~= spec_encode(*self));
        }
        out
    }
}

/// JSON whitespace: space, tab, line feed, carriage return.
pub open spec fn is_ws(b: u8) -> bool {
    b == 32 || b == 9 || b == 10 || b == 13
}

/// The first position at or after `i` holding no whitespace (or the end).
pub open spec fn skip_ws(s: Seq<u8>, i: int) -> int
    decreases s.len() - i,
{
    if 0 <= i < s.len() && is_ws(s[i]) {
        skip_ws(s, i + 1)
    } else {
        i
    }
}

/// A decimal digit byte, `0` through `9`.
pub open spec fn is_digit(b: u8) -> bool {
    48 <= b <= 57
}

/// The first position at or after `i` holding no digit (or the end).
pub open spec fn digits_end(s: Seq<u8>, i: int) -> int
    decreases s.len() - i,
{
    if 0 <= i < s.len() && is_digit(s[i]) {
        digits_end(s, i + 1)
    } else {
        i
    }
}

pub proof fn lemma_digits_end_bounds(s: Seq<u8>, i: int)
    requires
        0 <= i <= s.len(),
    ensures
        i <= digits_end(s, i) <= s.len(),
    decreases s.len() - i,
{
    if i < s.len() && is_digit(s[i]) {
        lemma_digits_end_bounds(s, i + 1);
    }
}

/// The number the digit bytes `s[i..j)` spell, most significant first.
pub open spec fn digits_val(s: Seq<u8>, i: int, j: int) -> int
    decreases j - i,
{
    if i >= j {
        0
    } else {
        digits_val(s, i, j - 1) * 10 + s[j - 1] - 48
    }
}

/// Everything between `i` and `digits_end(s, i)` is a digit.
pub proof fn lemma_digits_run(s: Seq<u8>, i: int)
    requires
        0 <= i <= s.len(),
    ensures
        forall|k: int| i <= k < digits_end(s, i) ==> is_digit(s[k]),
    decreases s.len() - i,
{
    if i < s.len() && is_digit(s[i]) {
        lemma_digits_run(s, i + 1);
    }
}

/// A run of digit bytes spells a number, never something negative.
pub proof fn lemma_digits_val_nonneg(s: Seq<u8>, i: int, j: int)
    requires
        0 <= i <= j <= s.len(),
        forall|k: int| i <= k < j ==> is_digit(s[k]),
    ensures
        0 <= digits_val(s, i, j),
    decreases j - i,
{
    if i < j {
        lemma_digits_val_nonneg(s, i, j - 1);
    }
}

/// A run of digits at `i`: where it ends and what number it spells. `None`
/// when there is no digit at `i`, when a leading zero starts a longer run
/// (JSON forbids `01`), or when the number does not fit a `u32`.
pub open spec fn spec_scan_u32(s: Seq<u8>, i: int) -> Option<(u32, int)> {
    let j = digits_end(s, i);
    if j == i {
        None
    } else if s[i] == 48 && j > i + 1 {
        None
    } else if digits_val(s, i, j) > u32::MAX {
        None
    } else {
        Some((digits_val(s, i, j) as u32, j))
    }
}

/// A JSON integer at `i`, fitting an `i32`: an optional minus sign followed
/// by a digit run. `None` on no digits, a forbidden leading zero, or a value
/// outside the `i32` range.
pub open spec fn spec_scan_i32(s: Seq<u8>, i: int) -> Option<(i32, int)> {
    if 0 <= i < s.len() && s[i] == MINUS {
        let j = digits_end(s, i + 1);
        if j == i + 1 {
            None
        } else if s[i + 1] == 48 && j > i + 2 {
            None
        } else if digits_val(s, i + 1, j) > 0x8000_0000 {
            None
        } else {
            Some(((0 - digits_val(s, i + 1, j)) as i32, j))
        }
    } else {
        let j = digits_end(s, i);
        if j == i {
            None
        } else if s[i] == 48 && j > i + 1 {
            None
        } else if digits_val(s, i, j) > i32::MAX {
            None
        } else {
            Some((digits_val(s, i, j) as i32, j))
        }
    }
}

/// A JSON boolean literal at `i`.
pub open spec fn spec_scan_bool(s: Seq<u8>, i: int) -> Option<(bool, int)> {
    if i + 4 <= s.len() && i >= 0 && s[i] == 116 && s[i + 1] == 114 && s[i + 2] == 117 && s[i + 3]
        == 101 {
        Some((true, i + 4))
    } else if i + 5 <= s.len() && i >= 0 && s[i] == 102 && s[i + 1] == 97 && s[i + 2] == 108 && s[i
        + 3] == 115 && s[i + 4] == 101 {
        Some((false, i + 5))
    } else {
        None
    }
}

/// One of the five members of the geometry object.
#[derive(Clone, Copy, Debug, PartialEq, Eq, Structural)]
pub enum Member {
    X,
    Y,
    Width,
    Height,
    Maximized,
}

/// A quoted member name at `i`: which member it is and the position after
/// the closing quote. `None` for anything but the five known names, written
/// without escapes.
pub open spec fn spec_member_name(s: Seq<u8>, i: int) -> Option<(Member, int)> {
    if i >= 0 && i + 3 <= s.len() && s[i] == QUOTE && s[i + 1] == 120 && s[i + 2] == QUOTE {
        Some((Member::X, i + 3))
    } else if i >= 0 && i + 3 <= s.len() && s[i] == QUOTE && s[i + 1] == 121 && s[i + 2] == QUOTE {
        Some((Member::Y, i + 3))
    } else if i >= 0 && i + 7 <= s.len() && s[i] == QUOTE && s[i + 1] == 119 && s[i + 2] == 105
        && s[i + 3] == 100 && s[i + 4] == 116 && s[i + 5] == 104 && s[i + 6] == QUOTE {
        Some((Member::Width, i + 7))
    } else if i >= 0 && i + 8 <= s.len() && s[i] == QUOTE && s[i + 1] == 104 && s[i + 2] == 101
        && s[i + 3] == 105 && s[i + 4] == 103 && s[i + 5] == 104 && s[i + 6] == 116 && s[i + 7]
        == QUOTE {
        Some((Member::Height, i + 8))
    } else if i >= 0 && i + 11 <= s.len() && s[i] == QUOTE && s[i + 1] == 109 && s[i + 2] == 97
        && s[i + 3] == 120 && s[i + 4] == 105 && s[i + 5] == 109 && s[i + 6] == 105 && s[i + 7]
        == 122 && s[i + 8] == 101 && s[i + 9] == 100 && s[i + 10] == QUOTE {
        Some((Member::Maximized, i + 11))
    } else {
        None
    }
}

/// The members read so far while parsing the object.
#[derive(Clone, Copy, Debug)]
pub struct PartialState {
    pub x: Option<i32>,
    pub y: Option<i32>,
    pub width: Option<u32>,
    pub height: Option<u32>,
    pub maximized: Option<bool>,
}

/// No member read yet.
pub open spec fn spec_partial_init() -> PartialState {
    PartialState { x: None, y: None, width: None, height: None, maximized: None }
}

/// How many members are still missing from `p`.
pub open spec fn slots_left(p: PartialState) -> int {
    (if p.x is None {
        1int
    } else {
        0int
    }) + (if p.y is None {
        1int
    } else {
        0int
    }) + (if p.width is None {
        1int
    } else {
        0int
    }) + (if p.height is None {
        1int
    } else {
        0int
    }) + (if p.maximized is None {
        1int
    } else {
        0int
    })
}

/// Read one member into `p`: its name, a colon, and a value of the member's
/// type, each part preceded by optional whitespace. `None` on anything
/// malformed and on a member that was already read.
pub open spec fn spec_member_into(s: Seq<u8>, i: int, p: PartialState) -> Option<(
    PartialState,
    int,
)> {
    match spec_member_name(s, i) {
        None => None,
        Some((m, i1)) => {
            let i2 = skip_ws(s, i1);
            if !(0 <= i2 < s.len() && s[i2] == COLON) {
                None
            } else {
                let i3 = skip_ws(s, i2 + 1);
                match m {
                    Member::X => if p.x is Some {
                        None
                    } else {
                        match spec_scan_i32(s, i3) {
                            None => None,
                            Some((v, j)) => Some((PartialState { x: Some(v), ..p }, j)),
                        }
                    },
                    Member::Y => if p.y is Some {
                        None
                    } else {
                        match spec_scan_i32(s, i3) {
                            None => None,
                            Some((v, j)) => Some((PartialState { y: Some(v), ..p }, j)),
                        }
                    },
                    Member::Width => if p.width is Some {
                        None
                    } else {
                        match spec_scan_u32(s, i3) {
                            None => None,
                            Some((v, j)) => Some((PartialState { width: Some(v), ..p }, j)),
                        }
                    },
                    Member::Height => if p.height is Some {
                        None
                    } else {
                        match spec_scan_u32(s, i3) {
                            None => None,
                            Some((v, j)) => Some((PartialState { height: Some(v), ..p }, j)),
                        }
                    },
                    Member::Maximized => if p.maximized is Some {
                        None
                    } else {
                        match spec_scan_bool(s, i3) {
                            None => None,
                            Some((v, j)) => Some((PartialState { maximized: Some(v), ..p }, j)),
                        }
                    },
                }
            }
        },
    }
}

/// Read members from `i` until the closing brace: one member, then either a
/// comma and further members or the `}` that ends the object. The result is
/// the members read and the position after the brace.
pub open spec fn spec_members(s: Seq<u8>, i: int, p: PartialState) -> Option<(PartialState, int)>
    decreases slots_left(p),
{
    match spec_member_into(s, i, p) {
        None => None,
        Some((p2, i4)) => {
            let i5 = skip_ws(s, i4);
            if 0 <= i5 < s.len() && s[i5] == COMMA {
                spec_members(s, skip_ws(s, i5 + 1), p2)
            } else if 0 <= i5 < s.len() && s[i5] == RBRACE {
                Some((p2, i5 + 1))
            } else {
                None
            }
        },
    }
}

/// Whether every member has been read.
pub open spec fn is_complete(p: PartialState) -> bool {
    p.x is Some && p.y is Some && p.width is Some && p.height is Some && p.maximized is Some
}

/// The record a completed `p` spells.
pub open spec fn build_state(p: PartialState) -> WindowState {
    WindowState {
        x: p.x->0,
        y: p.y->0,
        width: p.width->0,
        height: p.height->0,
        maximized: p.maximized->0,
    }
}

/// What the whole input means once the members are read: all five present
/// and nothing but whitespace behind the closing brace, or nothing.
pub open spec fn spec_finish(s: Seq<u8>, r: Option<(PartialState, int)>) -> Option<WindowState> {
    match r {
        None => None,
        Some((p, j)) => if is_complete(p) && skip_ws(s, j) == s.len() {
            Some(build_state(p))
        } else {
            None
        },
    }
}

/// What a stored byte sequence means: `Some` exactly when it is one JSON
/// object holding the five members, each exactly once, in any order, with
/// any interleaved JSON whitespace and nothing else; `None` otherwise.
pub open spec fn spec_parse(s: Seq<u8>) -> Option<WindowState> {
    let i0 = skip_ws(s, 0);
    if !(0 <= i0 < s.len() && s[i0] == LBRACE) {
        None
    } else {
        spec_finish(s, spec_members(s, skip_ws(s, i0 + 1), spec_partial_init()))
    }
}

/// What `dec_digits` produces: at least one byte, every byte a digit, and no
/// leading zero unless the number is zero itself.
pub proof fn lemma_dec_digits_props(n: nat)
    ensures
        dec_digits(n).len() >= 1,
        forall|k: int| 0 <= k < dec_digits(n).len() ==> is_digit(#[trigger] dec_digits(n)[k]),
        dec_digits(n).len() > 1 ==> dec_digits(n)[0] != 48,
        n >= 1 ==> dec_digits(n)[0] != 48,
        n < 10 ==> dec_digits(n).len() == 1,
    decreases n,
{
    if n >= 10 {
        lemma_dec_digits_props(n / 10);
    }
}

/// Skipping whitespace stops at once on a non-whitespace byte or at the end.
pub proof fn lemma_skip_ws_none(s: Seq<u8>, i: int)
    requires
        0 <= i <= s.len(),
        i == s.len() || !is_ws(s[i]),
    ensures
        skip_ws(s, i) == i,
{
}

/// A digit run flanked by a non-digit (or the end) ends exactly at the flank.
pub proof fn lemma_digits_end_of_run(s: Seq<u8>, i: int, j: int)
    requires
        0 <= i <= j <= s.len(),
        forall|k: int| i <= k < j ==> is_digit(s[k]),
        j == s.len() || !is_digit(s[j]),
    ensures
        digits_end(s, i) == j,
    decreases j - i,
{
    if i < j {
        lemma_digits_end_of_run(s, i + 1, j);
    }
}

/// Digit bytes written by `dec_digits(n)` spell `n` again.
pub proof fn lemma_dec_digits_val(s: Seq<u8>, i: int, n: nat)
    requires
        0 <= i,
        i + dec_digits(n).len() <= s.len(),
        s.subrange(i, i + dec_digits(n).len()) == dec_digits(n),
    ensures
        digits_val(s, i, i + dec_digits(n).len()) == n,
    decreases n,
{
    let d = dec_digits(n);
    let j = i + d.len();
    if n < 10 {
        assert(s[i] == d[0]);
        assert(digits_val(s, i, i + 1) == digits_val(s, i, i) * 10 + s[i] - 48);
    } else {
        lemma_dec_digits_props(n / 10);
        let dd = dec_digits((n / 10) as nat);
        assert(d == dd.push((48 + n % 10) as u8));
        assert(s.subrange(i, i + dd.len()) =~= dd) by {
            assert(forall|k: int|
                0 <= k < dd.len() ==> s.subrange(i, i + d.len())[k] == #[trigger] dd[k]);
        }
        lemma_dec_digits_val(s, i, (n / 10) as nat);
        assert(s[j - 1] == d[d.len() - 1]);
        assert(digits_val(s, i, j) == digits_val(s, i, j - 1) * 10 + s[j - 1] - 48);
    }
}

/// An embedded `dec_digits(n)` run parses back to `n`: reading at its start
/// consumes exactly the run and yields `n`.
pub proof fn lemma_scan_u32_at(s: Seq<u8>, i: int, n: u32)
    requires
        0 <= i,
        i + dec_digits(n as nat).len() <= s.len(),
        s.subrange(i, i + dec_digits(n as nat).len()) == dec_digits(n as nat),
        i + dec_digits(n as nat).len() == s.len() || !is_digit(s[i + dec_digits(n as nat).len()]),
    ensures
        spec_scan_u32(s, i) == Some((n, i + dec_digits(n as nat).len())),
{
    let d = dec_digits(n as nat);
    let j = i + d.len();
    lemma_dec_digits_props(n as nat);
    assert forall|k: int| i <= k < j implies is_digit(s[k]) by {
        assert(s[k] == s.subrange(i, j)[k - i]);
        assert(is_digit(d[k - i]));
    }
    lemma_digits_end_of_run(s, i, j);
    lemma_dec_digits_val(s, i, n as nat);
    assert(s[i] == d[0]);
}

/// An embedded `int_bytes(x)` form parses back to `x`.
pub proof fn lemma_scan_i32_at(s: Seq<u8>, i: int, x: i32)
    requires
        0 <= i,
        i + int_bytes(x as int).len() <= s.len(),
        s.subrange(i, i + int_bytes(x as int).len()) == int_bytes(x as int),
        i + int_bytes(x as int).len() == s.len() || !is_digit(s[i + int_bytes(x as int).len()]),
    ensures
        spec_scan_i32(s, i) == Some((x, i + int_bytes(x as int).len())),
{
    let b = int_bytes(x as int);
    let j = i + b.len();
    if x >= 0 {
        let d = dec_digits(x as nat);
        assert(s.subrange(i, j) == d);
        lemma_dec_digits_props(x as nat);
        assert forall|k: int| i <= k < j implies is_digit(s[k]) by {
            assert(s[k] == s.subrange(i, j)[k - i]);
            assert(is_digit(d[k - i]));
        }
        lemma_digits_end_of_run(s, i, j);
        lemma_dec_digits_val(s, i, x as nat);
        assert(s[i] == d[0]);
        assert(s[i] != MINUS);
    } else {
        let m = (-(x as int)) as nat;
        let d = dec_digits(m);
        assert(b == seq![MINUS] + d);
        assert(s[i] == s.subrange(i, j)[0]);
        assert(s[i] == MINUS);
        assert forall|k: int| 0 <= k < d.len() implies s.subrange(i + 1, j)[k] == d[k] by {
            assert(s.subrange(i + 1, j)[k] == s[i + 1 + k]);
            assert(s[i + 1 + k] == s.subrange(i, j)[k + 1]);
        }
        assert(s.subrange(i + 1, j) =~= d);
        lemma_dec_digits_props(m);
        assert forall|k: int| i + 1 <= k < j implies is_digit(s[k]) by {
            assert(s[k] == s.subrange(i + 1, j)[k - i - 1]);
            assert(is_digit(d[k - i - 1]));
        }
        lemma_digits_end_of_run(s, i + 1, j);
        lemma_dec_digits_val(s, i + 1, m);
        assert(s[i + 1] == d[0]);
        assert(m >= 1);
        assert((0 - digits_val(s, i + 1, j)) as i32 == x);
    }
}

/// Where each piece of `spec_encode(g)` ends: the value of `x` runs from
/// byte 5 to `enc_x_end`, and so on through the boolean, with the closing
/// brace at `enc_b_end`.
pub open spec fn enc_x_end(g: WindowState) -> int {
    5 + int_bytes(g.x as int).len() as int
}

pub open spec fn enc_y_end(g: WindowState) -> int {
    enc_x_end(g) + 5 + int_bytes(g.y as int).len() as int
}

pub open spec fn enc_w_end(g: WindowState) -> int {
    enc_y_end(g) + 9 + dec_digits(g.width as nat).len() as int
}

pub open spec fn enc_h_end(g: WindowState) -> int {
    enc_w_end(g) + 10 + dec_digits(g.height as nat).len() as int
}

pub open spec fn enc_b_end(g: WindowState) -> int {
    enc_h_end(g) + 13 + bool_bytes(g.maximized).len() as int
}

/// The opener, the name of `x`, the bytes of `x`'s value, and the separator
/// and name of `y`, each where `spec_encode` put them.
proof fn lemma_enc_layout_x(g: WindowState)
    ensures
        spec_encode(g).len() == enc_b_end(g) + 1,
        spec_encode(g)[0] == LBRACE,
        spec_encode(g)[1] == QUOTE,
        spec_encode(g)[2] == 120u8,
        spec_encode(g)[3] == QUOTE,
        spec_encode(g)[4] == COLON,
        spec_encode(g).subrange(5, enc_x_end(g)) == int_bytes(g.x as int),
        spec_encode(g)[enc_x_end(g)] == COMMA,
        spec_encode(g)[enc_x_end(g) + 1] == QUOTE,
        spec_encode(g)[enc_x_end(g) + 2] == 121u8,
        spec_encode(g)[enc_x_end(g) + 3] == QUOTE,
        spec_encode(g)[enc_x_end(g) + 4] == COLON,
{
    let s = spec_encode(g);
    let n1 = int_bytes(g.x as int);
    assert forall|k: int| 0 <= k < n1.len() implies s.subrange(5, enc_x_end(g))[k] == n1[k] by {
        assert(s.subrange(5, enc_x_end(g))[k] == s[5 + k]);
    }
    assert(s.subrange(5, enc_x_end(g)) =~= n1);
}

/// The bytes of `y`'s value and the separator and name of `width`.
proof fn lemma_enc_layout_y(g: WindowState)
    ensures
        spec_encode(g).subrange(enc_x_end(g) + 5, enc_y_end(g)) == int_bytes(g.y as int),
        spec_encode(g)[enc_y_end(g)] == COMMA,
        spec_encode(g)[enc_y_end(g) + 1] == QUOTE,
        spec_encode(g)[enc_y_end(g) + 2] == 119u8,
        spec_encode(g)[enc_y_end(g) + 3] == 105u8,
        spec_encode(g)[enc_y_end(g) + 4] == 100u8,
        spec_encode(g)[enc_y_end(g) + 5] == 116u8,
        spec_encode(g)[enc_y_end(g) + 6] == 104u8,
        spec_encode(g)[enc_y_end(g) + 7] == QUOTE,
        spec_encode(g)[enc_y_end(g) + 8] == COLON,
{
    let s = spec_encode(g);
    let n2 = int_bytes(g.y as int);
    let p2 = enc_x_end(g) + 5;
    assert forall|k: int| 0 <= k < n2.len() implies s.subrange(p2, enc_y_end(g))[k] == n2[k] by {
        assert(s.subrange(p2, enc_y_end(g))[k] == s[p2 + k]);
    }
    assert(s.subrange(p2, enc_y_end(g)) =~= n2);
}

/// The bytes of `width`'s value and the separator and name of `height`.
proof fn lemma_enc_layout_w(g: WindowState)
    ensures
        spec_encode(g).subrange(enc_y_end(g) + 9, enc_w_end(g)) == dec_digits(g.width as nat),
        spec_encode(g)[enc_w_end(g)] == COMMA,
        spec_encode(g)[enc_w_end(g) + 1] == QUOTE,
        spec_encode(g)[enc_w_end(g) + 2] == 104u8,
        spec_encode(g)[enc_w_end(g) + 3] == 101u8,
        spec_encode(g)[enc_w_end(g) + 4] == 105u8,
        spec_encode(g)[enc_w_end(g) + 5] == 103u8,
        spec_encode(g)[enc_w_end(g) + 6] == 104u8,
        spec_encode(g)[enc_w_end(g) + 7] == 116u8,
        spec_encode(g)[enc_w_end(g) + 8] == QUOTE,
        spec_encode(g)[enc_w_end(g) + 9] == COLON,
{
    let s = spec_encode(g);
    let n3 = dec_digits(g.width as nat);
    let p3 = enc_y_end(g) + 9;
    assert forall|k: int| 0 <= k < n3.len() implies s.subrange(p3, enc_w_end(g))[k] == n3[k] by {
        assert(s.subrange(p3, enc_w_end(g))[k] == s[p3 + k]);
    }
    assert(s.subrange(p3, enc_w_end(g)) =~= n3);
}

/// The bytes of `height`'s value and the separator and name of `maximized`.
proof fn lemma_enc_layout_h(g: WindowState)
    ensures
        spec_encode(g).subrange(enc_w_end(g) + 10, enc_h_end(g)) == dec_digits(g.height as nat),
        spec_encode(g)[enc_h_end(g)] == COMMA,
        spec_encode(g)[enc_h_end(g) + 1] == QUOTE,
        spec_encode(g)[enc_h_end(g) + 2] == 109u8,
        spec_encode(g)[enc_h_end(g) + 3] == 97u8,
        spec_encode(g)[enc_h_end(g) + 4] == 120u8,
        spec_encode(g)[enc_h_end(g) + 5] == 105u8,
        spec_encode(g)[enc_h_end(g) + 6] == 109u8,
        spec_encode(g)[enc_h_end(g) + 7] == 105u8,
        spec_encode(g)[enc_h_end(g) + 8] == 122u8,
        spec_encode(g)[enc_h_end(g) + 9] == 101u8,
        spec_encode(g)[enc_h_end(g) + 10] == 100u8,
        spec_encode(g)[enc_h_end(g) + 11] == QUOTE,
        spec_encode(g)[enc_h_end(g) + 12] == COLON,
{
    let s = spec_encode(g);
    let n4 = dec_digits(g.height as nat);
    let p4 = enc_w_end(g) + 10;
    assert forall|k: int| 0 <= k < n4.len() implies s.subrange(p4, enc_h_end(g))[k] == n4[k] by {
        assert(s.subrange(p4, enc_h_end(g))[k] == s[p4 + k]);
    }
    assert(s.subrange(p4, enc_h_end(g)) =~= n4);
}

/// The bytes of the boolean and the closing brace.
proof fn lemma_enc_layout_b(g: WindowState)
    ensures
        spec_encode(g).subrange(enc_h_end(g) + 13, enc_b_end(g)) == bool_bytes(g.maximized),
        spec_encode(g)[enc_b_end(g)] == RBRACE,
{
    let s = spec_encode(g);
    let nb = bool_bytes(g.maximized);
    let p5 = enc_h_end(g) + 13;
    assert forall|k: int| 0 <= k < nb.len() implies s.subrange(p5, enc_b_end(g))[k] == nb[k] by {
        assert(s.subrange(p5, enc_b_end(g))[k] == s[p5 + k]);
    }
    assert(s.subrange(p5, enc_b_end(g)) =~= nb);
}

/// Reading the encoded object back consumes the member `x` and steps to the
/// name of `y`.
proof fn lemma_rt_member_x(g: WindowState)
    ensures
        spec_members(spec_encode(g), 1, spec_partial_init()) == spec_members(
            spec_encode(g),
            enc_x_end(g) + 1,
            (PartialState {
                x: Some(g.x),
                y: None,
                width: None,
                height: None,
                maximized: None,
            }),
        ),
{
    let s = spec_encode(g);
    let q1 = enc_x_end(g);
    lemma_enc_layout_x(g);
    assert(spec_member_name(s, 1) == Some((Member::X, 4int)));
    lemma_skip_ws_none(s, 4);
    assert(s[5] == s.subrange(5, q1)[0]);
    if g.x >= 0 {
        lemma_dec_digits_props(g.x as nat);
    } else {
        lemma_dec_digits_props((-(g.x as int)) as nat);
    }
    assert(!is_ws(s[5]));
    lemma_skip_ws_none(s, 5);
    lemma_scan_i32_at(s, 5, g.x);
    assert(spec_member_into(s, 1, spec_partial_init()) == Some(
        (PartialState { x: Some(g.x), y: None, width: None, height: None, maximized: None }, q1),
    ));
    lemma_skip_ws_none(s, q1);
    lemma_skip_ws_none(s, q1 + 1);
}

/// Reading on consumes the member `y` and steps to the name of `width`.
proof fn lemma_rt_member_y(g: WindowState)
    ensures
        spec_members(
            spec_encode(g),
            enc_x_end(g) + 1,
            (PartialState {
                x: Some(g.x),
                y: None,
                width: None,
                height: None,
                maximized: None,
            }),
        ) == spec_members(
            spec_encode(g),
            enc_y_end(g) + 1,
            (PartialState {
                x: Some(g.x),
                y: Some(g.y),
                width: None,
                height: None,
                maximized: None,
            }),
        ),
{
    let s = spec_encode(g);
    let q1 = enc_x_end(g);
    let p2 = q1 + 5;
    let q2 = enc_y_end(g);
    let p_1 = PartialState { x: Some(g.x), y: None, width: None, height: None, maximized: None };
    let p_2 = PartialState { x: Some(g.x), y: Some(g.y), width: None, height: None, maximized: None };
    lemma_enc_layout_x(g);
    lemma_enc_layout_y(g);
    assert(spec_member_name(s, q1 + 1) == Some((Member::Y, q1 + 4)));
    lemma_skip_ws_none(s, q1 + 4);
    assert(s[p2] == s.subrange(p2, q2)[0]);
    if g.y >= 0 {
        lemma_dec_digits_props(g.y as nat);
    } else {
        lemma_dec_digits_props((-(g.y as int)) as nat);
    }
    assert(!is_ws(s[p2]));
    lemma_skip_ws_none(s, p2);
    lemma_scan_i32_at(s, p2, g.y);
    assert(spec_member_into(s, q1 + 1, p_1) == Some((p_2, q2)));
    lemma_skip_ws_none(s, q2);
    lemma_skip_ws_none(s, q2 + 1);
}

/// Reading on consumes the member `width` and steps to the name of `height`.
proof fn lemma_rt_member_w(g: WindowState)
    ensures
        spec_members(
            spec_encode(g),
            enc_y_end(g) + 1,
            (PartialState {
                x: Some(g.x),
                y: Some(g.y),
                width: None,
                height: None,
                maximized: None,
            }),
        ) == spec_members(
            spec_encode(g),
            enc_w_end(g) + 1,
            (PartialState {
                x: Some(g.x),
                y: Some(g.y),
                width: Some(g.width),
                height: None,
                maximized: None,
            }),
        ),
{
    let s = spec_encode(g);
    let q2 = enc_y_end(g);
    let p3 = q2 + 9;
    let q3 = enc_w_end(g);
    let p_2 = PartialState { x: Some(g.x), y: Some(g.y), width: None, height: None, maximized: None };
    let p_3 = PartialState {
        x: Some(g.x),
        y: Some(g.y),
        width: Some(g.width),
        height: None,
        maximized: None,
    };
    lemma_enc_layout_y(g);
    lemma_enc_layout_w(g);
    assert(spec_member_name(s, q2 + 1) == Some((Member::Width, q2 + 8)));
    lemma_skip_ws_none(s, q2 + 8);
    assert(s[p3] == s.subrange(p3, q3)[0]);
    lemma_dec_digits_props(g.width as nat);
    assert(!is_ws(s[p3]));
    lemma_skip_ws_none(s, p3);
    lemma_scan_u32_at(s, p3, g.width);
    assert(spec_member_into(s, q2 + 1, p_2) == Some((p_3, q3)));
    lemma_skip_ws_none(s, q3);
    lemma_skip_ws_none(s, q3 + 1);
}

/// Reading on consumes the member `height` and steps to the name of
/// `maximized`.
proof fn lemma_rt_member_h(g: WindowState)
    ensures
        spec_members(
            spec_encode(g),
            enc_w_end(g) + 1,
            (PartialState {
                x: Some(g.x),
                y: Some(g.y),
                width: Some(g.width),
                height: None,
                maximized: None,
            }),
        ) == spec_members(
            spec_encode(g),
            enc_h_end(g) + 1,
            (PartialState {
                x: Some(g.x),
                y: Some(g.y),
                width: Some(g.width),
                height: Some(g.height),
                maximized: None,
            }),
        ),
{
    let s = spec_encode(g);
    let q3 = enc_w_end(g);
    let p4 = q3 + 10;
    let q4 = enc_h_end(g);
    let p_3 = PartialState {
        x: Some(g.x),
        y: Some(g.y),
        width: Some(g.width),
        height: None,
        maximized: None,
    };
    let p_4 = PartialState {
        x: Some(g.x),
        y: Some(g.y),
        width: Some(g.width),
        height: Some(g.height),
        maximized: None,
    };
    lemma_enc_layout_w(g);
    lemma_enc_layout_h(g);
    assert(spec_member_name(s, q3 + 1) == Some((Member::Height, q3 + 9)));
    lemma_skip_ws_none(s, q3 + 9);
    assert(s[p4] == s.subrange(p4, q4)[0]);
    lemma_dec_digits_props(g.height as nat);
    assert(!is_ws(s[p4]));
    lemma_skip_ws_none(s, p4);
    lemma_scan_u32_at(s, p4, g.height);
    assert(spec_member_into(s, q3 + 1, p_3) == Some((p_4, q4)));
    lemma_skip_ws_none(s, q4);
    lemma_skip_ws_none(s, q4 + 1);
}

/// Reading on consumes the member `maximized` and the closing brace,
/// completing the object.
proof fn lemma_rt_member_b(g: WindowState)
    ensures
        spec_members(
            spec_encode(g),
            enc_h_end(g) + 1,
            (PartialState {
                x: Some(g.x),
                y: Some(g.y),
                width: Some(g.width),
                height: Some(g.height),
                maximized: None,
            }),
        ) == Some(
            (
                PartialState {
                    x: Some(g.x),
                    y: Some(g.y),
                    width: Some(g.width),
                    height: Some(g.height),
                    maximized: Some(g.maximized),
                },
                enc_b_end(g) + 1,
            ),
        ),
{
    let s = spec_encode(g);
    let q4 = enc_h_end(g);
    let p5 = q4 + 13;
    let q5 = enc_b_end(g);
    let p_4 = PartialState {
        x: Some(g.x),
        y: Some(g.y),
        width: Some(g.width),
        height: Some(g.height),
        maximized: None,
    };
    let p_5 = PartialState {
        x: Some(g.x),
        y: Some(g.y),
        width: Some(g.width),
        height: Some(g.height),
        maximized: Some(g.maximized),
    };
    lemma_enc_layout_x(g);
    lemma_enc_layout_h(g);
    lemma_enc_layout_b(g);
    assert(spec_member_name(s, q4 + 1) == Some((Member::Maximized, q4 + 12)));
    lemma_skip_ws_none(s, q4 + 12);
    let nb = bool_bytes(g.maximized);
    assert forall|t: int| 0 <= t < nb.len() implies s[p5 + t] == nb[t] by {
        assert(s.subrange(p5, q5)[t] == s[p5 + t]);
    }
    assert(!is_ws(s[p5]));
    lemma_skip_ws_none(s, p5);
    assert(spec_scan_bool(s, p5) == Some((g.maximized, q5)));
    assert(spec_member_into(s, q4 + 1, p_4) == Some((p_5, q5)));
    lemma_skip_ws_none(s, q5);
}

/// The round trip of the geometry store: whatever record is saved, reading
/// the written bytes back yields the very same record, in every field. A
/// save followed immediately by a load can therefore never change or lose
/// the geometry.
pub proof fn lemma_encode_parse_round_trip(g: WindowState)
    ensures
        spec_parse(spec_encode(g)) == Some(g),
{
    let s = spec_encode(g);
    let p_5 = PartialState {
        x: Some(g.x),
        y: Some(g.y),
        width: Some(g.width),
        height: Some(g.height),
        maximized: Some(g.maximized),
    };
    lemma_enc_layout_x(g);
    lemma_skip_ws_none(s, 0);
    lemma_skip_ws_none(s, 1);
    lemma_rt_member_x(g);
    lemma_rt_member_y(g);
    lemma_rt_member_w(g);
    lemma_rt_member_h(g);
    lemma_rt_member_b(g);
    assert(spec_members(s, 1, spec_partial_init()) == Some((p_5, enc_b_end(g) + 1)));
    lemma_skip_ws_none(s, enc_b_end(g) + 1);
    assert(build_state(p_5) == g);
    assert(spec_parse(s) == Some(g));
}

/// Step past JSON whitespace.
fn ws_end(s: &[u8], i: usize) -> (j: usize)
    requires
        i <= s@.len(),
    ensures
        j == skip_ws(s@, i as int),
        i <= j <= s@.len(),
{
    let n: usize = s.len();
    let mut j: usize = i;
    while j < n && (s[j] == 32 || s[j] == 9 || s[j] == 10 || s[j] == 13)
        invariant
            i <= j <= n,
            n == s@.len(),
            skip_ws(s@, i as int) == skip_ws(s@, j as int),
        decreases n - j,
    {
        j += 1;
    }
    j
}

/// Step past decimal digits.
fn dig_end(s: &[u8], i: usize) -> (j: usize)
    requires
        i <= s@.len(),
    ensures
        j == digits_end(s@, i as int),
        i <= j <= s@.len(),
        forall|k: int| i <= k < j ==> is_digit(s@[k]),
{
    let n: usize = s.len();
    let mut j: usize = i;
    while j < n && 48 <= s[j] && s[j] <= 57
        invariant
            i <= j <= n,
            n == s@.len(),
            digits_end(s@, i as int) == digits_end(s@, j as int),
            forall|k: int| i <= k < j ==> is_digit(s@[k]),
        decreases n - j,
    {
        j += 1;
    }
    j
}

/// Read a digit run as a `u32`, as [`spec_scan_u32`] describes it.
fn scan_u32(s: &[u8], i: usize) -> (r: Option<(u32, usize)>)
    requires
        i <= s@.len(),
    ensures
        (r is None <==> spec_scan_u32(s@, i as int) is None),
        (r matches Some((v, j)) ==> spec_scan_u32(s@, i as int) == Some((v, j as int)) && i < j
            <= s@.len()),
{
    let n: usize = s.len();
    let j: usize = dig_end(s, i);
    if j == i {
        return None;
    }
    if s[i] == 48 && j > i + 1 {
        return None;
    }
    let mut val: u64 = 0;
    let mut over: bool = false;
    let mut k: usize = i;
    while k < j
        invariant
            i <= k <= j <= s@.len(),
            forall|t: int| i <= t < j ==> is_digit(s@[t]),
            over ==> digits_val(s@, i as int, k as int) > u32::MAX,
            !over ==> val == digits_val(s@, i as int, k as int) && val <= u32::MAX,
        decreases j - k,
    {
        let d: u64 = (s[k] - 48) as u64;
        if !over {
            let nv: u64 = val * 10 + d;
            if nv > 0xFFFF_FFFF {
                over = true;
            } else {
                val = nv;
            }
        }
        k += 1;
    }
    if over {
        return None;
    }
    Some((val as u32, j))
}

/// Read a JSON integer as an `i32`, as [`spec_scan_i32`] describes it.
fn scan_i32(s: &[u8], i: usize) -> (r: Option<(i32, usize)>)
    requires
        i <= s@.len(),
    ensures
        (r is None <==> spec_scan_i32(s@, i as int) is None),
        (r matches Some((v, j)) ==> spec_scan_i32(s@, i as int) == Some((v, j as int)) && i < j
            <= s@.len()),
{
    let n: usize = s.len();
    if i < n && s[i] == MINUS {
        proof {
            lemma_digits_end_bounds(s@, i as int + 1);
            lemma_digits_run(s@, i as int + 1);
            lemma_digits_val_nonneg(s@, i as int + 1, digits_end(s@, i as int + 1));
        }
        match scan_u32(s, i + 1) {
            None => None,
            Some((v, j)) => {
                if v > 0x8000_0000u32 {
                    None
                } else {
                    Some((((0i64 - (v as i64)) as i32), j))
                }
            },
        }
    } else {
        proof {
            lemma_digits_end_bounds(s@, i as int);
            lemma_digits_run(s@, i as int);
            lemma_digits_val_nonneg(s@, i as int, digits_end(s@, i as int));
        }
        match scan_u32(s, i) {
            None => None,
            Some((v, j)) => {
                if v > 0x7FFF_FFFFu32 {
                    None
                } else {
                    Some(((v as i32), j))
                }
            },
        }
    }
}

/// Read a JSON boolean, as [`spec_scan_bool`] describes it.
fn scan_bool(s: &[u8], i: usize) -> (r: Option<(bool, usize)>)
    requires
        i <= s@.len(),
    ensures
        (r is None <==> spec_scan_bool(s@, i as int) is None),
        (r matches Some((v, j)) ==> spec_scan_bool(s@, i as int) == Some((v, j as int)) && i < j
            <= s@.len()),
{
    let n: usize = s.len();
    if n - i >= 4 && s[i] == 116 && s[i + 1] == 114 && s[i + 2] == 117 && s[i + 3] == 101 {
        Some((true, i + 4))
    } else if n - i >= 5 && s[i] == 102 && s[i + 1] == 97 && s[i + 2] == 108 && s[i + 3] == 115
        && s[i + 4] == 101 {
        Some((false, i + 5))
    } else {
        None
    }
}

/// Read a quoted member name, as [`spec_member_name`] describes it.
fn member_name(s: &[u8], i: usize) -> (r: Option<(Member, usize)>)
    requires
        i <= s@.len(),
    ensures
        (r is None <==> spec_member_name(s@, i as int) is None),
        (r matches Some((m, j)) ==> spec_member_name(s@, i as int) == Some((m, j as int)) && i < j
            <= s@.len()),
{
    let n: usize = s.len();
    if n - i >= 3 && s[i] == QUOTE && s[i + 1] == 120 && s[i + 2] == QUOTE {
        Some((Member::X, i + 3))
    } else if n - i >= 3 && s[i] == QUOTE && s[i + 1] == 121 && s[i + 2] == QUOTE {
        Some((Member::Y, i + 3))
    } else if n - i >= 7 && s[i] == QUOTE && s[i + 1] == 119 && s[i + 2] == 105 && s[i + 3] == 100
        && s[i + 4] == 116 && s[i + 5] == 104 && s[i + 6] == QUOTE {
        Some((Member::Width, i + 7))
    } else if n - i >= 8 && s[i] == QUOTE && s[i + 1] == 104 && s[i + 2] == 101 && s[i + 3] == 105
        && s[i + 4] == 103 && s[i + 5] == 104 && s[i + 6] == 116 && s[i + 7] == QUOTE {
        Some((Member::Height, i + 8))
    } else if n - i >= 11 && s[i] == QUOTE && s[i + 1] == 109 && s[i + 2] == 97 && s[i + 3] == 120
        && s[i + 4] == 105 && s[i + 5] == 109 && s[i + 6] == 105 && s[i + 7] == 122 && s[i + 8]
        == 101 && s[i + 9] == 100 && s[i + 10] == QUOTE {
        Some((Member::Maximized, i + 11))
    } else {
        None
    }
}

impl WindowState {
    /// Read a stored byte sequence back into a record, answering exactly
    /// what [`spec_parse`] gives: the record when the bytes are one
    /// well-formed geometry object, `None` otherwise.
    pub fn from_json(s: &[u8]) -> (r: Option<WindowState>)
        ensures
            r == spec_parse(s@),
    {
        let n: usize = s.len();
        let mut i: usize = ws_end(s, 0);
        if !(i < n && s[i] == LBRACE) {
            return None;
        }
        i = ws_end(s, i + 1);
        let mut p = PartialState { x: None, y: None, width: None, height: None, maximized: None };
        loop
            invariant_except_break
                n == s@.len(),
                i <= n,
                spec_parse(s@) == spec_finish(s@, spec_members(s@, i as int, p)),
            ensures
                i <= n,
                n == s@.len(),
                spec_parse(s@) == spec_finish(s@, Some((p, i as int))),
            decreases slots_left(p),
        {
            let ghost p_entry = p;
            let ghost i_entry = i as int;
            let (m, after_name): (Member, usize) = match member_name(s, i) {
                None => {
                    return None;
                },
                Some(pair) => pair,
            };
            i = ws_end(s, after_name);
            if !(i < n && s[i] == COLON) {
                return None;
            }
            i = ws_end(s, i + 1);
            match m {
                Member::X => {
                    if p.x.is_some() {
                        return None;
                    }
                    match scan_i32(s, i) {
                        None => {
                            return None;
                        },
                        Some((v, j)) => {
                            p.x = Some(v);
                            i = j;
                        },
                    }
                },
                Member::Y => {
                    if p.y.is_some() {
                        return None;
                    }
                    match scan_i32(s, i) {
                        None => {
                            return None;
                        },
                        Some((v, j)) => {
                            p.y = Some(v);
                            i = j;
                        },
                    }
                },
                Member::Width => {
                    if p.width.is_some() {
                        return None;
                    }
                    match scan_u32(s, i) {
                        None => {
                            return None;
                        },
                        Some((v, j)) => {
                            p.width = Some(v);
                            i = j;
                        },
                    }
                },
                Member::Height => {
                    if p.height.is_some() {
                        return None;
                    }
                    match scan_u32(s, i) {
                        None => {
                            return None;
                        },
                        Some((v, j)) => {
                            p.height = Some(v);
                            i = j;
                        },
                    }
                },
                Member::Maximized => {
                    if p.maximized.is_some() {
                        return None;
                    }
                    match scan_bool(s, i) {
                        None => {
                            return None;
                        },
                        Some((v, j)) => {
                            p.maximized = Some(v);
                            i = j;
                        },
                    }
                },
            }
            proof {
                assert(spec_member_into(s@, i_entry, p_entry) == Some((p, i as int)));
            }
            i = ws_end(s, i);
            if i < n && s[i] == COMMA {
                i = ws_end(s, i + 1);
                proof {
                    assert(spec_members(s@, i_entry, p_entry) == spec_members(s@, i as int, p));
                }
            } else if i < n && s[i] == RBRACE {
                i = i + 1;
                proof {
                    assert(spec_members(s@, i_entry, p_entry) == Some((p, i as int)));
                }
                break;
            } else {
                return None;
            }
        }
        if p.x.is_some() && p.y.is_some() && p.width.is_some() && p.height.is_some()
            && p.maximized.is_some() && ws_end(s, i) == n {
            Some(
                WindowState {
                    x: p.x.unwrap(),
                    y: p.y.unwrap(),
                    width: p.width.unwrap(),
                    height: p.height.unwrap(),
                    maximized: p.maximized.unwrap(),
                },
            )
        } else {
            None
        }
    }
}

} // verus!
