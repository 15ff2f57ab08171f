//! The tag lexer: resolves style tokens to ANSI SGR escape sequences and
//! converts bracket-tag markup into text carrying literal escape bytes.
//!
//! A tag is the content between `[` and `]`. An opening tag may hold several
//! space-separated tokens (a compound tag); it is opened and closed as one
//! atomic unit, keyed by its exact text. Malformed markup is never an error:
//! it is reproduced verbatim.

use vstd::prelude::*;

use crate::text::{
    alphabetic, chars_to_string, dec_digits, eq_lit, has_prefix, hex_digit_char, hex_of, hex_val,
    is_alpha, is_hex_digit, is_space, parse_u8_range, push_dec_u8, push_lit, space_char,
    spec_parse_u8, to_chars,
};

verus! {

/// The escape sequence that clears every attribute and color.
pub open spec fn ansi_reset() -> Seq<char> {
    "\x1b[0m"@
}

/// The escape code for a 256-color foreground or background choice.
pub open spec fn color_code(n: nat, background: bool) -> Seq<char> {
    (if background {
        "\x1b[48;5;"@
    } else {
        "\x1b[38;5;"@
    }) + dec_digits(n) + "m"@
}

/// The escape code for a truecolor foreground or background choice.
pub open spec fn rgb_code(r: nat, g: nat, b: nat, background: bool) -> Seq<char> {
    (if background {
        "\x1b[48;2;"@
    } else {
        "\x1b[38;2;"@
    }) + dec_digits(r) + ";"@ + dec_digits(g) + ";"@ + dec_digits(b) + "m"@
}

/// The fixed keyword table: text attributes, the sixteen foreground color
/// names and their `on_` background forms.
pub open spec fn static_code(t: Seq<char>) -> Option<Seq<char>> {
    if t == "b"@ || t == "bold"@ {
        Some("\x1b[1m"@)
    } else if t == "dim"@ {
        Some("\x1b[2m"@)
    } else if t == "i"@ || t == "italic"@ {
        Some("\x1b[3m"@)
    } else if t == "u"@ || t == "underline"@ {
        Some("\x1b[4m"@)
    } else if t == "blink"@ {
        Some("\x1b[5m"@)
    } else if t == "inverse"@ || t == "reverse"@ {
        Some("\x1b[7m"@)
    } else if t == "hidden"@ {
        Some("\x1b[8m"@)
    } else if t == "s"@ || t == "strike"@ || t == "strikethrough"@ {
        Some("\x1b[9m"@)
    } else if t == "overline"@ {
        Some("\x1b[53m"@)
    } else if t == "black"@ {
        Some("\x1b[30m"@)
    } else if t == "red"@ {
        Some("\x1b[31m"@)
    } else if t == "green"@ {
        Some("\x1b[32m"@)
    } else if t == "yellow"@ {
        Some("\x1b[33m"@)
    } else if t == "blue"@ {
        Some("\x1b[34m"@)
    } else if t == "magenta"@ {
        Some("\x1b[35m"@)
    } else if t == "cyan"@ {
        Some("\x1b[36m"@)
    } else if t == "white"@ {
        Some("\x1b[37m"@)
    } else if t == "bright_black"@ || t == "grey"@ || t == "gray"@ {
        Some("\x1b[90m"@)
    } else if t == "bright_red"@ {
        Some("\x1b[91m"@)
    } else if t == "bright_green"@ {
        Some("\x1b[92m"@)
    } else if t == "bright_yellow"@ {
        Some("\x1b[93m"@)
    } else if t == "bright_blue"@ {
        Some("\x1b[94m"@)
    } else if t == "bright_magenta"@ {
        Some("\x1b[95m"@)
    } else if t == "bright_cyan"@ {
        Some("\x1b[96m"@)
    } else if t == "bright_white"@ {
        Some("\x1b[97m"@)
    } else if t == "on_black"@ {
        Some("\x1b[40m"@)
    } else if t == "on_red"@ {
        Some("\x1b[41m"@)
    } else if t == "on_green"@ {
        Some("\x1b[42m"@)
    } else if t == "on_yellow"@ {
        Some("\x1b[43m"@)
    } else if t == "on_blue"@ {
        Some("\x1b[44m"@)
    } else if t == "on_magenta"@ {
        Some("\x1b[45m"@)
    } else if t == "on_cyan"@ {
        Some("\x1b[46m"@)
    } else if t == "on_white"@ {
        Some("\x1b[47m"@)
    } else if t == "on_bright_black"@ || t == "on_grey"@ || t == "on_gray"@ {
        Some("\x1b[100m"@)
    } else if t == "on_bright_red"@ {
        Some("\x1b[101m"@)
    } else if t == "on_bright_green"@ {
        Some("\x1b[102m"@)
    } else if t == "on_bright_yellow"@ {
        Some("\x1b[103m"@)
    } else if t == "on_bright_blue"@ {
        Some("\x1b[104m"@)
    } else if t == "on_bright_magenta"@ {
        Some("\x1b[105m"@)
    } else if t == "on_bright_cyan"@ {
        Some("\x1b[106m"@)
    } else if t == "on_bright_white"@ {
        Some("\x1b[107m"@)
    } else {
        None
    }
}

/// Whether `t` starts with `pre`.
pub open spec fn has_seq_prefix(t: Seq<char>, pre: Seq<char>) -> bool {
    t.len() >= pre.len() && t.subrange(0, pre.len() as int) == pre
}

/// Whether `t` has the shape of `pre` followed by an argument and `)`.
pub open spec fn call_form(t: Seq<char>, pre: Seq<char>) -> bool {
    t.len() > pre.len() && has_seq_prefix(t, pre) && t.last() == ')'
}

/// The text between the opening `pre` and the closing parenthesis.
pub open spec fn call_arg(t: Seq<char>, pre: Seq<char>) -> Seq<char>
    recommends
        call_form(t, pre),
{
    t.subrange(pre.len() as int, t.len() - 1)
}

pub open spec fn all_hex(s: Seq<char>) -> bool {
    forall|i: int| 0 <= i < s.len() ==> is_hex_digit(#[trigger] s[i])
}

/// The byte written by the two hexadecimal digits at `k` and `k + 1`.
pub open spec fn hex_pair(s: Seq<char>, k: int) -> nat
    recommends
        0 <= k && k + 1 < s.len(),
{
    hex_val(s[k]) * 16 + hex_val(s[k + 1])
}

/// What a hex color form resolves to: exactly six hexadecimal digits, read
/// as three bytes; anything else is unresolved.
pub open spec fn spec_parse_hex(h: Seq<char>, background: bool) -> Option<Seq<char>> {
    if h.len() == 6 && all_hex(h) {
        Some(rgb_code(hex_pair(h, 0), hex_pair(h, 2), hex_pair(h, 4), background))
    } else {
        None
    }
}

/// The pieces of `s` cut at every comma, reading from position `i` with
/// `part` collected so far. Cutting the empty text still yields one piece.
pub open spec fn split_commas_from(s: Seq<char>, i: int, part: Seq<char>) -> Seq<Seq<char>>
    decreases s.len() - i,
{
    if i < 0 || i >= s.len() {
        seq![part]
    } else if s[i] == ',' {
        seq![part] + split_commas_from(s, i + 1, Seq::empty())
    } else {
        split_commas_from(s, i + 1, part.push(s[i]))
    }
}

pub open spec fn split_commas(s: Seq<char>) -> Seq<Seq<char>> {
    split_commas_from(s, 0, Seq::empty())
}

/// What an `rgb(R,G,B)` argument list resolves to: exactly three
/// comma-separated byte values, each trimmed of surrounding white space.
pub open spec fn spec_parse_rgb(inner: Seq<char>, background: bool) -> Option<Seq<char>> {
    let ps = split_commas(inner);
    if ps.len() == 3 {
        match (spec_parse_u8(ps[0]), spec_parse_u8(ps[1]), spec_parse_u8(ps[2])) {
            (Some(r), Some(g), Some(b)) => Some(
                rgb_code(r as nat, g as nat, b as nat, background),
            ),
            _ => None,
        }
    } else {
        None
    }
}

/// What one style token resolves to, trying in order: the keyword table,
/// `color(N)`, `on_color(N)`, `rgb(R,G,B)`, `on_rgb(R,G,B)`, `on_#RRGGBB`,
/// `#RRGGBB`. A token that fits no form, or whose parameters do not parse,
/// is unresolved.
pub open spec fn spec_resolve_token(t: Seq<char>) -> Option<Seq<char>> {
    match static_code(t) {
        Some(code) => Some(code),
        None => {
            if call_form(t, "color("@) {
                match spec_parse_u8(call_arg(t, "color("@)) {
                    Some(n) => Some(color_code(n as nat, false)),
                    None => None,
                }
            } else if call_form(t, "on_color("@) {
                match spec_parse_u8(call_arg(t, "on_color("@)) {
                    Some(n) => Some(color_code(n as nat, true)),
                    None => None,
                }
            } else if call_form(t, "rgb("@) {
                spec_parse_rgb(call_arg(t, "rgb("@), false)
            } else if call_form(t, "on_rgb("@) {
                spec_parse_rgb(call_arg(t, "on_rgb("@), true)
            } else if has_seq_prefix(t, "on_#"@) {
                spec_parse_hex(t.skip(4), true)
            } else if has_seq_prefix(t, "#"@) {
                spec_parse_hex(t.skip(1), false)
            } else {
                None
            }
        },
    }
}

pub open spec fn opt_chars_view(o: Option<Vec<char>>) -> Option<Seq<char>> {
    match o {
        Some(v) => Some(v@),
        None => None,
    }
}

pub open spec fn opt_string_view(o: Option<String>) -> Option<Seq<char>> {
    match o {
        Some(s) => Some(s@),
        None => None,
    }
}

/// Keyword table lookup.
fn static_lookup(token: &Vec<char>) -> (r: Option<Vec<char>>)
    ensures
        opt_chars_view(r) == static_code(token@),
{
    if eq_lit(token, "b") || eq_lit(token, "bold") {
        Some(to_chars("\x1b[1m"))
    } else if eq_lit(token, "dim") {
        Some(to_chars("\x1b[2m"))
    } else if eq_lit(token, "i") || eq_lit(token, "italic") {
        Some(to_chars("\x1b[3m"))
    } else if eq_lit(token, "u") || eq_lit(token, "underline") {
        Some(to_chars("\x1b[4m"))
    } else if eq_lit(token, "blink") {
        Some(to_chars("\x1b[5m"))
    } else if eq_lit(token, "inverse") || eq_lit(token, "reverse") {
        Some(to_chars("\x1b[7m"))
    } else if eq_lit(token, "hidden") {
        Some(to_chars("\x1b[8m"))
    } else if eq_lit(token, "s") || eq_lit(token, "strike") || eq_lit(token, "strikethrough") {
        Some(to_chars("\x1b[9m"))
    } else if eq_lit(token, "overline") {
        Some(to_chars("\x1b[53m"))
    } else if eq_lit(token, "black") {
        Some(to_chars("\x1b[30m"))
    } else if eq_lit(token, "red") {
        Some(to_chars("\x1b[31m"))
    } else if eq_lit(token, "green") {
        Some(to_chars("\x1b[32m"))
    } else if eq_lit(token, "yellow") {
        Some(to_chars("\x1b[33m"))
    } else if eq_lit(token, "blue") {
        Some(to_chars("\x1b[34m"))
    } else if eq_lit(token, "magenta") {
        Some(to_chars("\x1b[35m"))
    } else if eq_lit(token, "cyan") {
        Some(to_chars("\x1b[36m"))
    } else if eq_lit(token, "white") {
        Some(to_chars("\x1b[37m"))
    } else if eq_lit(token, "bright_black") || eq_lit(token, "grey") || eq_lit(token, "gray") {
        Some(to_chars("\x1b[90m"))
    } else if eq_lit(token, "bright_red") {
        Some(to_chars("\x1b[91m"))
    } else if eq_lit(token, "bright_green") {
        Some(to_chars("\x1b[92m"))
    } else if eq_lit(token, "bright_yellow") {
        Some(to_chars("\x1b[93m"))
    } else if eq_lit(token, "bright_blue") {
        Some(to_chars("\x1b[94m"))
    } else if eq_lit(token, "bright_magenta") {
        Some(to_chars("\x1b[95m"))
    } else if eq_lit(token, "bright_cyan") {
        Some(to_chars("\x1b[96m"))
    } else if eq_lit(token, "bright_white") {
        Some(to_chars("\x1b[97m"))
    } else if eq_lit(token, "on_black") {
        Some(to_chars("\x1b[40m"))
    } else if eq_lit(token, "on_red") {
        Some(to_chars("\x1b[41m"))
    } else if eq_lit(token, "on_green") {
        Some(to_chars("\x1b[42m"))
    } else if eq_lit(token, "on_yellow") {
        Some(to_chars("\x1b[43m"))
    } else if eq_lit(token, "on_blue") {
        Some(to_chars("\x1b[44m"))
    } else if eq_lit(token, "on_magenta") {
        Some(to_chars("\x1b[45m"))
    } else if eq_lit(token, "on_cyan") {
        Some(to_chars("\x1b[46m"))
    } else if eq_lit(token, "on_white") {
        Some(to_chars("\x1b[47m"))
    } else if eq_lit(token, "on_bright_black") || eq_lit(token, "on_grey") || eq_lit(
        token,
        "on_gray",
    ) {
        Some(to_chars("\x1b[100m"))
    } else if eq_lit(token, "on_bright_red") {
        Some(to_chars("\x1b[101m"))
    } else if eq_lit(token, "on_bright_green") {
        Some(to_chars("\x1b[102m"))
    } else if eq_lit(token, "on_bright_yellow") {
        Some(to_chars("\x1b[103m"))
    } else if eq_lit(token, "on_bright_blue") {
        Some(to_chars("\x1b[104m"))
    } else if eq_lit(token, "on_bright_magenta") {
        Some(to_chars("\x1b[105m"))
    } else if eq_lit(token, "on_bright_cyan") {
        Some(to_chars("\x1b[106m"))
    } else if eq_lit(token, "on_bright_white") {
        Some(to_chars("\x1b[107m"))
    } else {
        None
    }
}

/// Build the 256-color escape code for parameter `n`.
fn build_color_code(n: u8, background: bool) -> (r: Vec<char>)
    ensures
        r@ == color_code(n as nat, background),
{
    let mut out: Vec<char> = Vec::new();
    if background {
        push_lit(&mut out, "\x1b[48;5;");
    } else {
        push_lit(&mut out, "\x1b[38;5;");
    }
    push_dec_u8(&mut out, n);
    push_lit(&mut out, "m");
    proof {
        assert(out@ =~= color_code(n as nat, background));
    }
    out
}

/// Build the truecolor escape code for the three byte parameters.
fn build_rgb_code(r: u8, g: u8, b: u8, background: bool) -> (out: Vec<char>)
    ensures
        out@ == rgb_code(r as nat, g as nat, b as nat, background),
{
    let mut out: Vec<char> = Vec::new();
    if background {
        push_lit(&mut out, "\x1b[48;2;");
    } else {
        push_lit(&mut out, "\x1b[38;2;");
    }
    push_dec_u8(&mut out, r);
    push_lit(&mut out, ";");
    push_dec_u8(&mut out, g);
    push_lit(&mut out, ";");
    push_dec_u8(&mut out, b);
    push_lit(&mut out, "m");
    proof {
        assert(out@ =~= rgb_code(r as nat, g as nat, b as nat, background));
    }
    out
}

/// Resolve the hex color digits `v[lo..hi]`.
#[verifier::loop_isolation(false)]
fn parse_hex_chars(v: &Vec<char>, lo: usize, hi: usize, background: bool) -> (r: Option<Vec<char>>)
    requires
        lo <= hi <= v@.len(),
    ensures
        opt_chars_view(r) == spec_parse_hex(v@.subrange(lo as int, hi as int), background),
{
    let ghost h = v@.subrange(lo as int, hi as int);
    if hi - lo != 6 {
        return None;
    }
    let mut i = lo;
    while i < hi
        invariant
            lo <= i <= hi,
            forall|j: int| lo <= j < i ==> is_hex_digit(#[trigger] v@[j]),
        decreases hi - i,
    {
        if !hex_digit_char(v[i]) {
            proof {
                assert(h[i - lo] == v@[i as int]);
                assert(!all_hex(h));
            }
            return None;
        }
        i = i + 1;
    }
    proof {
        assert(forall|j: int| 0 <= j < 6 ==> h[j] == v@[lo + j]);
        assert(all_hex(h));
    }
    let r = hex_of(v[lo]) * 16 + hex_of(v[lo + 1]);
    let g = hex_of(v[lo + 2]) * 16 + hex_of(v[lo + 3]);
    let b = hex_of(v[lo + 4]) * 16 + hex_of(v[lo + 5]);
    proof {
        assert(r as nat == hex_pair(h, 0));
        assert(g as nat == hex_pair(h, 2));
        assert(b as nat == hex_pair(h, 4));
    }
    Some(build_rgb_code(r, g, b, background))
}

/// Resolve the `rgb(...)` argument list `v[lo..hi]`.
#[verifier::loop_isolation(false)]
fn parse_rgb_chars(v: &Vec<char>, lo: usize, hi: usize, background: bool) -> (r: Option<Vec<char>>)
    requires
        lo <= hi <= v@.len(),
    ensures
        opt_chars_view(r) == spec_parse_rgb(v@.subrange(lo as int, hi as int), background),
{
    let ghost s = v@.subrange(lo as int, hi as int);
    let mut parts: Vec<Vec<char>> = Vec::new();
    let ghost mut gparts: Seq<Seq<char>> = Seq::empty();
    let mut part: Vec<char> = Vec::new();
    let mut i = lo;
    while i < hi
        invariant
            lo <= i <= hi,
            parts@.len() == gparts.len(),
            forall|k: int| 0 <= k < gparts.len() ==> parts@[k]@ == gparts[k],
            split_commas(s) == gparts + split_commas_from(s, i - lo, part@),
        decreases hi - i,
    {
        let c = v[i];
        proof {
            assert(s[i - lo] == c);
        }
        if c == ',' {
            proof {
                assert(split_commas_from(s, i - lo, part@) == seq![part@] + split_commas_from(
                    s,
                    i - lo + 1,
                    Seq::<char>::empty(),
                ));
                assert(gparts + (seq![part@] + split_commas_from(s, i - lo + 1, Seq::<
                    char,
                >::empty())) =~= gparts.push(part@) + split_commas_from(s, i - lo + 1, Seq::<
                    char,
                >::empty()));
                gparts = gparts.push(part@);
            }
            parts.push(part);
            part = Vec::new();
        } else {
            part.push(c);
        }
        i = i + 1;
    }
    proof {
        assert(split_commas_from(s, hi - lo, part@) == seq![part@]);
        assert(split_commas(s) =~= gparts.push(part@));
        gparts = gparts.push(part@);
    }
    parts.push(part);
    if parts.len() != 3 {
        return None;
    }
    let p0 = parse_u8_range(&parts[0], 0, parts[0].len());
    let p1 = parse_u8_range(&parts[1], 0, parts[1].len());
    let p2 = parse_u8_range(&parts[2], 0, parts[2].len());
    proof {
        assert(parts@[0]@.subrange(0, parts@[0]@.len() as int) =~= gparts[0]);
        assert(parts@[1]@.subrange(0, parts@[1]@.len() as int) =~= gparts[1]);
        assert(parts@[2]@.subrange(0, parts@[2]@.len() as int) =~= gparts[2]);
    }
    match (p0, p1, p2) {
        (Some(r), Some(g), Some(b)) => Some(build_rgb_code(r, g, b, background)),
        _ => None,
    }
}

/// Resolve one style token held as characters.
fn resolve_token_chars(token: &Vec<char>) -> (r: Option<Vec<char>>)
    ensures
        opt_chars_view(r) == spec_resolve_token(token@),
{
    match static_lookup(token) {
        Some(code) => {
            return Some(code);
        },
        None => {},
    }
    proof {
        reveal_strlit("color(");
        reveal_strlit("on_color(");
        reveal_strlit("rgb(");
        reveal_strlit("on_rgb(");
        reveal_strlit("on_#");
        reveal_strlit("#");
    }
    let n = token.len();
    if has_prefix(token, "color(") && n > 6 && token[n - 1] == ')' {
        match parse_u8_range(token, 6, n - 1) {
            Some(c) => Some(build_color_code(c, false)),
            None => None,
        }
    } else if has_prefix(token, "on_color(") && n > 9 && token[n - 1] == ')' {
        match parse_u8_range(token, 9, n - 1) {
            Some(c) => Some(build_color_code(c, true)),
            None => None,
        }
    } else if has_prefix(token, "rgb(") && n > 4 && token[n - 1] == ')' {
        parse_rgb_chars(token, 4, n - 1, false)
    } else if has_prefix(token, "on_rgb(") && n > 7 && token[n - 1] == ')' {
        parse_rgb_chars(token, 7, n - 1, true)
    } else if has_prefix(token, "on_#") {
        proof {
            assert(token@.subrange(4, token@.len() as int) =~= token@.skip(4));
        }
        parse_hex_chars(token, 4, n, true)
    } else if has_prefix(token, "#") {
        proof {
            assert(token@.subrange(1, token@.len() as int) =~= token@.skip(1));
        }
        parse_hex_chars(token, 1, n, false)
    } else {
        None
    }
}

/// Resolve a single style token to its ANSI escape sequence, or report it
/// unresolved.
pub fn resolve_token(token: &str) -> (r: Option<String>)
    ensures
        opt_string_view(r) == spec_resolve_token(token@),
{
    let chars = to_chars(token);
    match resolve_token_chars(&chars) {
        Some(code) => Some(chars_to_string(&code)),
        None => None,
    }
}

/// Resolve a truecolor argument list, `R,G,B` between the parentheses.
pub fn parse_rgb(inner: &str, background: bool) -> (r: Option<String>)
    ensures
        opt_string_view(r) == spec_parse_rgb(inner@, background),
{
    let chars = to_chars(inner);
    proof {
        assert(chars@.subrange(0, chars@.len() as int) =~= inner@);
    }
    match parse_rgb_chars(&chars, 0, chars.len(), background) {
        Some(code) => Some(chars_to_string(&code)),
        None => None,
    }
}

/// Resolve six hex color digits.
pub fn parse_hex(hex: &str, background: bool) -> (r: Option<String>)
    ensures
        opt_string_view(r) == spec_parse_hex(hex@, background),
{
    let chars = to_chars(hex);
    proof {
        assert(chars@.subrange(0, chars@.len() as int) =~= hex@);
    }
    match parse_hex_chars(&chars, 0, chars.len(), background) {
        Some(code) => Some(chars_to_string(&code)),
        None => None,
    }
}

/// Resolving a compound tag, reading from position `i` with the token run
/// `tok` open and the codes `acc` emitted so far: tokens are the maximal
/// runs of non-space characters; every token must resolve, and their codes
/// are concatenated in order. A tag with no tokens resolves to no codes.
pub open spec fn compound_from(tag: Seq<char>, i: int, tok: Seq<char>, acc: Seq<char>) -> Option<
    Seq<char>,
>
    decreases tag.len() - i,
{
    if i < 0 || i >= tag.len() {
        if tok.len() == 0 {
            Some(acc)
        } else {
            match spec_resolve_token(tok) {
                Some(code) => Some(acc + code),
                None => None,
            }
        }
    } else if is_space(tag[i]) {
        if tok.len() == 0 {
            compound_from(tag, i + 1, tok, acc)
        } else {
            match spec_resolve_token(tok) {
                Some(code) => compound_from(tag, i + 1, Seq::empty(), acc + code),
                None => None,
            }
        }
    } else {
        compound_from(tag, i + 1, tok.push(tag[i]), acc)
    }
}

/// What a whole tag resolves to: every space-separated token resolved and
/// the codes concatenated; unresolved if any token is.
pub open spec fn spec_resolve_compound(tag: Seq<char>) -> Option<Seq<char>> {
    compound_from(tag, 0, Seq::empty(), Seq::empty())
}

/// Resolve a compound tag held as characters.
#[verifier::loop_isolation(false)]
fn resolve_compound_chars(tag: &Vec<char>) -> (r: Option<Vec<char>>)
    ensures
        opt_chars_view(r) == spec_resolve_compound(tag@),
{
    let n = tag.len();
    let mut acc: Vec<char> = Vec::new();
    let mut tok: Vec<char> = Vec::new();
    let mut i: usize = 0;
    while i < n
        invariant
            i <= n,
            spec_resolve_compound(tag@) == compound_from(tag@, i as int, tok@, acc@),
        decreases n - i,
    {
        let c = tag[i];
        if space_char(c) {
            if tok.len() > 0 {
                match resolve_token_chars(&tok) {
                    Some(mut code) => {
                        acc.append(&mut code);
                        tok = Vec::new();
                    },
                    None => {
                        return None;
                    },
                }
            }
        } else {
            tok.push(c);
        }
        i = i + 1;
    }
    if tok.len() > 0 {
        match resolve_token_chars(&tok) {
            Some(mut code) => {
                acc.append(&mut code);
            },
            None => {
                return None;
            },
        }
    }
    Some(acc)
}

/// Resolve all space-separated tokens in a compound tag and return the
/// concatenated ANSI codes, or report the tag unresolved.
pub fn resolve_compound(tag: &str) -> (r: Option<String>)
    ensures
        opt_string_view(r) == spec_resolve_compound(tag@),
{
    let chars = to_chars(tag);
    match resolve_compound_chars(&chars) {
        Some(code) => Some(chars_to_string(&code)),
        None => None,
    }
}

/// Whether a character may begin a tag directly after `[`.
pub open spec fn is_tag_start(c: char) -> bool {
    is_alpha(c) || c == '/' || c == '#'
}

fn tag_start_char(c: char) -> (r: bool)
    ensures
        r == is_tag_start(c),
{
    if c == '/' || c == '#' {
        true
    } else {
        alphabetic(c)
    }
}

/// The views of a sequence of character vectors.
pub open spec fn views_of(s: Seq<Vec<char>>) -> Seq<Seq<char>> {
    s.map_values(|v: Vec<char>| v@)
}

/// The codes re-emitted after a close: every tag still on the stack,
/// outermost first, resolved again. Entries always resolve, since only
/// resolved tags are pushed; an unresolved entry would contribute nothing.
pub open spec fn replay(stack: Seq<Seq<char>>) -> Seq<char>
    decreases stack.len(),
{
    if stack.len() == 0 {
        Seq::empty()
    } else {
        replay(stack.drop_last()) + (match spec_resolve_compound(stack.last()) {
            Some(code) => code,
            None => Seq::empty(),
        })
    }
}

/// The position of the most recently opened tag whose text equals `name`.
pub open spec fn rfind(stack: Seq<Seq<char>>, name: Seq<char>) -> Option<int>
    decreases stack.len(),
{
    if stack.len() == 0 {
        None
    } else if stack.last() == name {
        Some(stack.len() - 1)
    } else {
        rfind(stack.drop_last(), name)
    }
}

/// One left-to-right pass of the tag lexer from position `i`, with the
/// tags `stack` open, and, when `in_tag`, the tag text `cur`
/// collected so far. Yields everything emitted from here to the end of the
/// input:
/// - `[` starts a tag when the next character may begin one (discarding any
///   tag being collected), and is otherwise a literal character;
/// - `]` while collecting ends the tag: content starting `/` closes the
///   matching open tag if there is one, truncating the stack to it,
///   emitting one reset and re-emitting the remaining open tags' codes;
///   other content that resolves is pushed and its codes are emitted; in
///   every other case the bracketed text is emitted verbatim;
/// - at the end of input one reset is emitted if any tag is still open.
pub open spec fn lex(
    text: Seq<char>,
    i: int,
    stack: Seq<Seq<char>>,
    in_tag: bool,
    cur: Seq<char>,
) -> Seq<char>
    decreases text.len() - i,
{
    if i < 0 || i >= text.len() {
        if stack.len() > 0 {
            ansi_reset()
        } else {
            Seq::empty()
        }
    } else {
        let c = text[i];
        if c == '[' {
            if i + 1 < text.len() && is_tag_start(text[i + 1]) {
                lex(text, i + 1, stack, true, Seq::empty())
            } else {
                seq![c] + lex(text, i + 1, stack, in_tag, cur)
            }
        } else if c == ']' && in_tag {
            if cur.len() > 0 && cur[0] == '/' {
                match rfind(stack, cur.drop_first()) {
                    Some(p) => {
                        let remaining = stack.take(p);
                        ansi_reset() + replay(remaining) + lex(
                            text,
                            i + 1,
                            remaining,
                            false,
                            Seq::empty(),
                        )
                    },
                    None => seq!['['] + cur + seq![']'] + lex(text, i + 1, stack, false, Seq::empty()),
                }
            } else {
                match spec_resolve_compound(cur) {
                    Some(codes) => codes + lex(text, i + 1, stack.push(cur), false, Seq::empty()),
                    None => seq!['['] + cur + seq![']'] + lex(text, i + 1, stack, false, Seq::empty()),
                }
            }
        } else if in_tag {
            lex(text, i + 1, stack, true, cur.push(c))
        } else {
            seq![c] + lex(text, i + 1, stack, false, cur)
        }
    }
}

/// What `apply_styles` returns: the whole input lexed with nothing open.
pub open spec fn spec_apply(text: Seq<char>) -> Seq<char> {
    lex(text, 0, Seq::empty(), false, Seq::empty())
}

/// Append all of `v` to `out`.
fn push_chars(out: &mut Vec<char>, v: &Vec<char>)
    ensures
        final(out)@ == old(out)@ + v@,
{
    let n = v.len();
    let mut k: usize = 0;
    while k < n
        invariant
            n == v@.len(),
            k <= n,
            out@ == old(out)@ + v@.subrange(0, k as int),
        decreases n - k,
    {
        out.push(v[k]);
        proof {
            assert(out@ =~= old(out)@ + v@.subrange(0, k as int + 1));
        }
        k = k + 1;
    }
    proof {
        assert(out@ =~= old(out)@ + v@);
    }
}

/// Whether the open tag `e` equals the closing tag text `cur` after its
/// leading slash.
fn eq_name(e: &Vec<char>, cur: &Vec<char>) -> (r: bool)
    requires
        cur@.len() >= 1,
    ensures
        r == (e@ == cur@.drop_first()),
{
    if e.len() != cur.len() - 1 {
        proof {
            assert(e@.len() != cur@.drop_first().len());
        }
        return false;
    }
    let n = e.len();
    let mut k: usize = 0;
    while k < n
        invariant
            n == e@.len(),
            n + 1 == cur@.len(),
            k <= n,
            forall|j: int| 0 <= j < k ==> e@[j] == cur@[j + 1],
        decreases n - k,
    {
        if e[k] != cur[k + 1] {
            proof {
                assert(cur@.drop_first()[k as int] == cur@[k as int + 1]);
            }
            return false;
        }
        k = k + 1;
    }
    proof {
        assert(e@ =~= cur@.drop_first());
    }
    true
}

/// Search the stack from the top for the tag a closing tag names.
#[verifier::loop_isolation(false)]
fn find_open(stack: &Vec<Vec<char>>, cur: &Vec<char>) -> (r: Option<usize>)
    requires
        cur@.len() >= 1,
    ensures
        match r {
            Some(p) => p < stack@.len() && rfind(views_of(stack@), cur@.drop_first()) == Some(
                p as int,
            ),
            None => rfind(views_of(stack@), cur@.drop_first()) is None,
        },
{
    let ghost vs = views_of(stack@);
    let ghost name = cur@.drop_first();
    proof {
        assert(vs.take(stack@.len() as int) =~= vs);
    }
    let mut j = stack.len();
    while j > 0
        invariant
            j <= stack@.len(),
            rfind(vs, name) == rfind(vs.take(j as int), name),
        decreases j,
    {
        j = j - 1;
        proof {
            assert(vs.take(j as int + 1).drop_last() =~= vs.take(j as int));
            assert(vs.take(j as int + 1).last() == stack@[j as int]@);
        }
        if eq_name(&stack[j], cur) {
            return Some(j);
        }
    }
    proof {
        assert(vs.take(0) =~= Seq::<Seq<char>>::empty());
    }
    None
}

/// The lexer pass over characters.
#[verifier::loop_isolation(false)]
fn apply_chars(text: &Vec<char>) -> (out: Vec<char>)
    ensures
        out@ == spec_apply(text@),
{
    let n = text.len();
    let mut out: Vec<char> = Vec::new();
    let mut stack: Vec<Vec<char>> = Vec::new();
    let mut in_tag = false;
    let mut cur: Vec<char> = Vec::new();
    let mut i: usize = 0;
    proof {
        assert(views_of(stack@) =~= Seq::<Seq<char>>::empty());
    }
    while i < n
        invariant
            i <= n,
            spec_apply(text@) == out@ + lex(text@, i as int, views_of(stack@), in_tag, cur@),
        decreases n - i,
    {
        let ghost out0 = out@;
        let ghost vs0 = views_of(stack@);
        let ghost cur0 = cur@;
        let c = text[i];
        if c == '[' {
            if i + 1 < n && tag_start_char(text[i + 1]) {
                in_tag = true;
                cur = Vec::new();
            } else {
                out.push(c);
                proof {
                    assert(out@ + lex(text@, i as int + 1, vs0, in_tag, cur@) =~= out0 + (seq![c]
                        + lex(text@, i as int + 1, vs0, in_tag, cur@)));
                }
            }
        } else if c == ']' && in_tag {
            in_tag = false;
            if cur.len() > 0 && cur[0] == '/' {
                match find_open(&stack, &cur) {
                    Some(p) => {
                        stack.truncate(p);
                        proof {
                            assert(views_of(stack@) =~= vs0.take(p as int));
                        }
                        push_lit(&mut out, "\x1b[0m");
                        let ghost base = out@;
                        let mut k: usize = 0;
                        while k < stack.len()
                            invariant
                                k <= stack@.len(),
                                views_of(stack@) == vs0.take(p as int),
                                out@ == base + replay(views_of(stack@).take(k as int)),
                            decreases stack@.len() - k,
                        {
                            let ghost done = out@;
                            match resolve_compound_chars(&stack[k]) {
                                Some(mut code) => {
                                    out.append(&mut code);
                                },
                                None => {},
                            }
                            proof {
                                let vs = views_of(stack@);
                                assert(vs.take(k as int + 1).drop_last() =~= vs.take(k as int));
                                assert(vs.take(k as int + 1).last() == stack@[k as int]@);
                                assert(out@ =~= base + replay(vs.take(k as int + 1)));
                            }
                            k = k + 1;
                        }
                        cur = Vec::new();
                        proof {
                            let vs = views_of(stack@);
                            assert(vs.take(stack@.len() as int) =~= vs);
                            assert(out@ + lex(text@, i as int + 1, vs, false, cur@) =~= out0 + (
                            ansi_reset() + replay(vs) + lex(text@, i as int + 1, vs, false, cur@)));
                        }
                    },
                    None => {
                        out.push('[');
                        push_chars(&mut out, &cur);
                        out.push(']');
                        cur = Vec::new();
                        proof {
                            assert(out@ + lex(text@, i as int + 1, vs0, false, cur@) =~= out0 + (
                            seq!['['] + cur0 + seq![']'] + lex(text@, i as int + 1, vs0, false, cur@)));
                        }
                    },
                }
            } else {
                match resolve_compound_chars(&cur) {
                    Some(mut code) => {
                        out.append(&mut code);
                        stack.push(cur);
                        cur = Vec::new();
                        proof {
                            assert(views_of(stack@) =~= vs0.push(cur0));
                            assert(out@ + lex(text@, i as int + 1, vs0.push(cur0), false, cur@)
                                =~= out0 + ((match spec_resolve_compound(cur0) {
                                Some(codes) => codes,
                                None => Seq::empty(),
                            }) + lex(text@, i as int + 1, vs0.push(cur0), false, cur@)));
                        }
                    },
                    None => {
                        out.push('[');
                        push_chars(&mut out, &cur);
                        out.push(']');
                        cur = Vec::new();
                        proof {
                            assert(out@ + lex(text@, i as int + 1, vs0, false, cur@) =~= out0 + (
                            seq!['['] + cur0 + seq![']'] + lex(text@, i as int + 1, vs0, false, cur@)));
                        }
                    },
                }
            }
        } else if in_tag {
            cur.push(c);
        } else {
            out.push(c);
            proof {
                assert(out@ + lex(text@, i as int + 1, vs0, in_tag, cur@) =~= out0 + (seq![c] + lex(
                    text@,
                    i as int + 1,
                    vs0,
                    in_tag,
                    cur@,
                )));
            }
        }
        i = i + 1;
    }
    if stack.len() > 0 {
        push_lit(&mut out, "\x1b[0m");
    }
    out
}

/// Convert bracket-tag markup into text carrying literal ANSI escape
/// sequences. Total: malformed or unknown markup is reproduced verbatim,
/// and an unclosed tag at the end of input yields one final reset.
pub fn apply_styles(text: &str) -> (r: String)
    ensures
        r@ == spec_apply(text@),
{
    let chars = to_chars(text);
    let out = apply_chars(&chars);
    chars_to_string(&out)
}

/// The characters of `s` that a terminal prints, reading from position `i`:
/// every run starting `ESC [` up to and including the first `m` is dropped,
/// and everything else is kept.
pub open spec fn vis_from(s: Seq<char>, i: int, in_esc: bool) -> Seq<char>
    decreases s.len() - i,
{
    if i < 0 || i >= s.len() {
        Seq::empty()
    } else if in_esc {
        vis_from(s, i + 1, s[i] != 'm')
    } else if s[i] == '\x1b' && i + 1 < s.len() && s[i + 1] == '[' {
        vis_from(s, i + 2, true)
    } else {
        seq![s[i]] + vis_from(s, i + 1, false)
    }
}

/// `s` with every ANSI escape sequence removed.
pub open spec fn strip_ansi(s: Seq<char>) -> Seq<char> {
    vis_from(s, 0, false)
}

/// The printable width of a styled string: one per character left after
/// stripping escape sequences.
pub open spec fn spec_visible_width(s: Seq<char>) -> nat {
    strip_ansi(s).len()
}

/// Strip ANSI escape sequences from a styled string and count the
/// remaining characters. Each character counts one column.
#[verifier::loop_isolation(false)]
pub fn visible_width(styled: &str) -> (w: usize)
    ensures
        w as nat == spec_visible_width(styled@),
{
    let chars = to_chars(styled);
    let n = chars.len();
    let mut count: usize = 0;
    let mut in_esc = false;
    let mut i: usize = 0;
    while i < n
        invariant
            i <= n,
            count <= i,
            spec_visible_width(styled@) == count + vis_from(styled@, i as int, in_esc).len(),
        decreases n - i,
    {
        let c = chars[i];
        if in_esc {
            if c == 'm' {
                in_esc = false;
            }
        } else if c == '\x1b' && i + 1 < n && chars[i + 1] == '[' {
            in_esc = true;
            i = i + 1;
        } else {
            count = count + 1;
        }
        i = i + 1;
    }
    count
}

/// Text with no opening bracket passes through the lexer unchanged.
proof fn lemma_lex_plain(text: Seq<char>, i: int)
    requires
        0 <= i <= text.len(),
        forall|j: int| i <= j < text.len() ==> text[j] != '[',
    ensures
        lex(text, i, Seq::empty(), false, Seq::empty()) == text.skip(i),
    decreases text.len() - i,
{
    if i < text.len() {
        lemma_lex_plain(text, i + 1);
        assert(text.skip(i) =~= seq![text[i]] + text.skip(i + 1));
    } else {
        assert(text.skip(i) =~= Seq::<char>::empty());
    }
}

/// Passthrough: styling text that holds no `[` returns it unchanged.
pub proof fn lemma_apply_passthrough(text: Seq<char>)
    requires
        forall|j: int| 0 <= j < text.len() ==> text[j] != '[',
    ensures
        spec_apply(text) == text,
{
    lemma_lex_plain(text, 0);
    assert(text.skip(0) =~= text);
}

/// Text with neither brackets nor escape bytes is blind to neither: its
/// styled form is itself, and its visible width is its length.
pub proof fn lemma_plain_width(text: Seq<char>)
    requires
        forall|j: int| 0 <= j < text.len() ==> text[j] != '[',
        forall|j: int| 0 <= j < text.len() ==> text[j] != '\x1b',
    ensures
        spec_visible_width(spec_apply(text)) == text.len(),
{
    lemma_apply_passthrough(text);
    lemma_vis_plain(text, 0);
}

proof fn lemma_vis_plain(text: Seq<char>, i: int)
    requires
        0 <= i <= text.len(),
        forall|j: int| i <= j < text.len() ==> text[j] != '\x1b',
    ensures
        vis_from(text, i, false) == text.skip(i),
    decreases text.len() - i,
{
    if i < text.len() {
        lemma_vis_plain(text, i + 1);
        assert(text.skip(i) =~= seq![text[i]] + text.skip(i + 1));
    } else {
        assert(text.skip(i) =~= Seq::<char>::empty());
    }
}

} // verus!
