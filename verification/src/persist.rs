//! Persistence of the session shape across restarts. The durable snapshot
//! is a JSON object `{"tabs":[<path>...],"theme":<index>}`; only paths and
//! the theme index survive a restart, buffer content is always re-read from
//! disk. The encoder and parser are verified against each other: parsing an
//! encoded snapshot gives back exactly the paths and theme it was built
//! from.

use vstd::prelude::*;
use vstd::string::*;
use crate::text::str_eq;

verus! {

/// The persisted shape: the ordered tab paths and the theme index.
pub struct AppState {
    pub tabs: Vec<String>,
    pub theme: usize,
}

/// The snapshot a first run starts from: no tabs, default theme.
pub fn default_state() -> (st: AppState)
    ensures
        st.tabs@.len() == 0,
        st.theme == 0,
{
    AppState { tabs: Vec::new(), theme: 0 }
}

/// The lower-case hex digit for a value below sixteen.
pub open spec fn hex_char(d: int) -> char {
    if d < 10 {
        digit_char(d)
    } else if d == 10 {
        'a'
    } else if d == 11 {
        'b'
    } else if d == 12 {
        'c'
    } else if d == 13 {
        'd'
    } else if d == 14 {
        'e'
    } else {
        'f'
    }
}

/// Whether a character is a hex digit, either case.
pub open spec fn is_hex_digit(c: char) -> bool {
    ||| is_digit(c)
    ||| c == 'a' || c == 'b' || c == 'c' || c == 'd' || c == 'e' || c == 'f'
    ||| c == 'A' || c == 'B' || c == 'C' || c == 'D' || c == 'E' || c == 'F'
}

/// The value of a hex digit.
pub open spec fn hex_val(c: char) -> nat {
    if c == 'a' || c == 'A' {
        10
    } else if c == 'b' || c == 'B' {
        11
    } else if c == 'c' || c == 'C' {
        12
    } else if c == 'd' || c == 'D' {
        13
    } else if c == 'e' || c == 'E' {
        14
    } else if c == 'f' || c == 'F' {
        15
    } else {
        digit_val(c)
    }
}

/// The code point four hex digits spell.
pub open spec fn hex_code(a: char, b: char, c: char, d: char) -> nat {
    ((hex_val(a) * 16 + hex_val(b)) * 16 + hex_val(c)) * 16 + hex_val(d)
}

/// How one character is written inside a JSON string: quote, backslash and
/// the named control characters take their two-character escapes, any other
/// control character is written as a `\u00..` escape, everything else
/// stands for itself.
pub open spec fn esc_char(c: char) -> Seq<char> {
    if c == '"' {
        seq!['\\', '"']
    } else if c == '\\' {
        seq!['\\', '\\']
    } else if c == '\n' {
        seq!['\\', 'n']
    } else if c == '\t' {
        seq!['\\', 't']
    } else if c == '\r' {
        seq!['\\', 'r']
    } else if c == '\u{8}' {
        seq!['\\', 'b']
    } else if c == '\u{c}' {
        seq!['\\', 'f']
    } else if (c as u32) < 0x20 {
        seq!['\\', 'u', '0', '0', hex_char(((c as u32) / 16) as int), hex_char(
            ((c as u32) % 16) as int,
        )]
    } else {
        seq![c]
    }
}

/// A string's characters written inside a JSON string literal.
pub open spec fn esc(s: Seq<char>) -> Seq<char>
    decreases s.len(),
{
    if s.len() == 0 {
        Seq::empty()
    } else {
        esc_char(s[0]) + esc(s.skip(1))
    }
}

proof fn lemma_esc_push(s: Seq<char>, c: char)
    ensures
        esc(s.push(c)) == esc(s) + esc_char(c),
    decreases s.len(),
{
    if s.len() == 0 {
        assert(s.push(c)[0] == c);
        assert(s.push(c).skip(1) =~= Seq::<char>::empty());
        assert(esc(Seq::<char>::empty()) == Seq::<char>::empty());
        assert(esc(s.push(c)) == esc_char(c) + esc(s.push(c).skip(1)));
        assert(esc_char(c) + Seq::<char>::empty() =~= esc_char(c));
        assert(esc(s) + esc_char(c) =~= esc_char(c));
    } else {
        assert(s.push(c)[0] == s[0]);
        assert(s.push(c).skip(1) =~= s.skip(1).push(c));
        lemma_esc_push(s.skip(1), c);
        assert(esc(s.push(c)) == esc_char(s[0]) + (esc(s.skip(1)) + esc_char(c)));
        assert(esc_char(s[0]) + (esc(s.skip(1)) + esc_char(c)) =~= (esc_char(s[0]) + esc(
            s.skip(1),
        )) + esc_char(c));
    }
}

/// A JSON string literal: the escaped characters between quotes.
pub open spec fn enc_str(s: Seq<char>) -> Seq<char> {
    seq!['"'] + esc(s) + seq!['"']
}

/// The comma-separated string literals of the tab array, without brackets.
pub open spec fn enc_items(ss: Seq<Seq<char>>) -> Seq<char>
    decreases ss.len(),
{
    if ss.len() == 0 {
        Seq::empty()
    } else if ss.len() == 1 {
        enc_str(ss[0])
    } else {
        enc_str(ss[0]) + seq![','] + enc_items(ss.skip(1))
    }
}

proof fn lemma_enc_items_push(ss: Seq<Seq<char>>, v: Seq<char>)
    ensures
        ss.len() == 0 ==> enc_items(ss.push(v)) == enc_str(v),
        ss.len() > 0 ==> enc_items(ss.push(v)) == enc_items(ss) + seq![','] + enc_str(v),
    decreases ss.len(),
{
    if ss.len() == 0 {
        assert(ss.push(v)[0] == v);
    } else if ss.len() == 1 {
        assert(ss.push(v)[0] == ss[0]);
        assert(ss.push(v).skip(1) =~= seq![v]);
        assert(enc_items(seq![v]) == enc_str(v));
        assert(enc_items(ss) == enc_str(ss[0]));
    } else {
        assert(ss.push(v)[0] == ss[0]);
        assert(ss.push(v).skip(1) =~= ss.skip(1).push(v));
        lemma_enc_items_push(ss.skip(1), v);
        assert(enc_items(ss.push(v)) == enc_str(ss[0]) + seq![','] + (enc_items(ss.skip(1))
            + seq![','] + enc_str(v)));
        assert(enc_str(ss[0]) + seq![','] + (enc_items(ss.skip(1)) + seq![','] + enc_str(v))
            =~= (enc_str(ss[0]) + seq![','] + enc_items(ss.skip(1))) + seq![','] + enc_str(
            v,
        ));
    }
}

/// The decimal digit for a value below ten.
pub open spec fn digit_char(d: int) -> char {
    if d == 0 {
        '0'
    } else if d == 1 {
        '1'
    } else if d == 2 {
        '2'
    } else if d == 3 {
        '3'
    } else if d == 4 {
        '4'
    } else if d == 5 {
        '5'
    } else if d == 6 {
        '6'
    } else if d == 7 {
        '7'
    } else if d == 8 {
        '8'
    } else {
        '9'
    }
}

/// A number written in decimal, most significant digit first.
pub open spec fn enc_nat(n: nat) -> Seq<char>
    decreases n,
{
    if n < 10 {
        seq![digit_char(n as int)]
    } else {
        enc_nat(n / 10).push(digit_char((n % 10) as int))
    }
}

/// The whole persisted snapshot as JSON text.
pub open spec fn enc_state(tabs: Seq<Seq<char>>, theme: nat) -> Seq<char> {
    "{\"tabs\":["@ + enc_items(tabs) + seq![']'] + ",\"theme\":"@ + enc_nat(theme)
        + seq!['}']
}

/// Whether a character may follow a backslash as a two-character escape.
pub open spec fn is_escape_code(c: char) -> bool {
    c == '"' || c == '\\' || c == '/' || c == 'n' || c == 't' || c == 'r' || c == 'b'
        || c == 'f'
}

/// The character an escape code stands for.
pub open spec fn unesc(c: char) -> char {
    if c == 'n' {
        '\n'
    } else if c == 't' {
        '\t'
    } else if c == 'r' {
        '\r'
    } else if c == 'b' {
        '\u{8}'
    } else if c == 'f' {
        '\u{c}'
    } else {
        c
    }
}

/// Parses the contents of a string literal up to and including the closing
/// quote: the decoded characters and how many input characters were read.
/// Besides the two-character escapes, `\u` escapes are read for code
/// points below 0x100 — the range the encoder and legacy snapshots use for
/// control characters.
pub open spec fn sp_content(s: Seq<char>) -> Option<(Seq<char>, nat)>
    decreases s.len(),
{
    if s.len() == 0 {
        None
    } else if s[0] == '"' {
        Some((Seq::empty(), 1nat))
    } else if s[0] == '\\' {
        if s.len() >= 2 && is_escape_code(s[1]) {
            match sp_content(s.skip(2)) {
                Some(r) => Some((seq![unesc(s[1])] + r.0, (r.1 + 2) as nat)),
                None => None,
            }
        } else if s.len() >= 6 && s[1] == 'u' && is_hex_digit(s[2]) && is_hex_digit(s[3])
            && is_hex_digit(s[4]) && is_hex_digit(s[5]) && hex_code(s[2], s[3], s[4], s[5])
            < 0x100 {
            match sp_content(s.skip(6)) {
                Some(r) => Some(
                    (seq![((hex_code(s[2], s[3], s[4], s[5]) as u32) as char)] + r.0, (r.1
                        + 6) as nat),
                ),
                None => None,
            }
        } else {
            None
        }
    } else {
        match sp_content(s.skip(1)) {
            Some(r) => Some((seq![s[0]] + r.0, (r.1 + 1) as nat)),
            None => None,
        }
    }
}

/// Parses a whole string literal, opening quote included.
pub open spec fn sp_string(s: Seq<char>) -> Option<(Seq<char>, nat)> {
    if s.len() >= 1 && s[0] == '"' {
        match sp_content(s.skip(1)) {
            Some(r) => Some((r.0, (r.1 + 1) as nat)),
            None => None,
        }
    } else {
        None
    }
}

/// Insignificant JSON whitespace.
pub open spec fn is_ws(c: char) -> bool {
    c == ' ' || c == '\t' || c == '\n' || c == '\r'
}

/// How many whitespace characters lead the input.
pub open spec fn sp_ws(s: Seq<char>) -> nat
    decreases s.len(),
{
    if s.len() == 0 || !is_ws(s[0]) {
        0
    } else {
        (1 + sp_ws(s.skip(1))) as nat
    }
}

/// Parses the string literals of the tab array up to and including the
/// closing bracket, with whitespace allowed around elements and commas.
pub open spec fn sp_items(s: Seq<char>) -> Option<(Seq<Seq<char>>, nat)>
    decreases s.len(),
{
    let w = sp_ws(s);
    if w >= s.len() {
        None
    } else if s[w as int] == ']' {
        Some((Seq::empty(), (w + 1) as nat))
    } else {
        match sp_string(s.skip(w as int)) {
            Some((v, n)) => {
                if n <= s.len() - w {
                    let w2 = sp_ws(s.skip((w + n) as int));
                    if w + n + w2 < s.len() && s[(w + n + w2) as int] == ',' {
                        match sp_items(s.skip((w + n + w2 + 1) as int)) {
                            Some((vs, m)) => Some(
                                (seq![v] + vs, (w + n + w2 + 1 + m) as nat),
                            ),
                            None => None,
                        }
                    } else if w + n + w2 < s.len() && s[(w + n + w2) as int] == ']' {
                        Some((seq![v], (w + n + w2 + 1) as nat))
                    } else {
                        None
                    }
                } else {
                    None
                }
            },
            None => None,
        }
    }
}

/// Whether a character is a decimal digit.
pub open spec fn is_digit(c: char) -> bool {
    c == '0' || c == '1' || c == '2' || c == '3' || c == '4' || c == '5' || c == '6'
        || c == '7' || c == '8' || c == '9'
}

/// The value of a decimal digit.
pub open spec fn digit_val(c: char) -> nat {
    if c == '0' {
        0
    } else if c == '1' {
        1
    } else if c == '2' {
        2
    } else if c == '3' {
        3
    } else if c == '4' {
        4
    } else if c == '5' {
        5
    } else if c == '6' {
        6
    } else if c == '7' {
        7
    } else if c == '8' {
        8
    } else {
        9
    }
}

/// Reads the leading digit run, folding it onto an accumulator: the value
/// and how many digits were read.
pub open spec fn sp_digits_acc(s: Seq<char>, acc: nat) -> (nat, nat)
    decreases s.len(),
{
    if s.len() == 0 || !is_digit(s[0]) {
        (acc, 0nat)
    } else {
        let r = sp_digits_acc(s.skip(1), acc * 10 + digit_val(s[0]));
        (r.0, (r.1 + 1) as nat)
    }
}

/// Parses an object key: optional whitespace, the key as a string
/// literal, optional whitespace, and the separating colon.
pub open spec fn sp_key(s: Seq<char>, key: Seq<char>) -> Option<nat> {
    let w = sp_ws(s);
    if w >= s.len() {
        None
    } else {
        match sp_string(s.skip(w as int)) {
            Some((k, n)) => {
                if k == key && n <= s.len() - w {
                    let w2 = sp_ws(s.skip((w + n) as int));
                    if w + n + w2 < s.len() && s[(w + n + w2) as int] == ':' {
                        Some((w + n + w2 + 1) as nat)
                    } else {
                        None
                    }
                } else {
                    None
                }
            },
            None => None,
        }
    }
}

/// Parses the tabs member value: whitespace, then the bracketed array.
pub open spec fn sp_member_tabs(s: Seq<char>) -> Option<(Seq<Seq<char>>, nat)> {
    let w = sp_ws(s);
    if w < s.len() && s[w as int] == '[' {
        match sp_items(s.skip((w + 1) as int)) {
            Some((vs, n)) => Some((vs, (w + 1 + n) as nat)),
            None => None,
        }
    } else {
        None
    }
}

/// Parses the theme member value: whitespace, then a digit run whose
/// value fits the platform's index type.
pub open spec fn sp_member_theme(s: Seq<char>) -> Option<(nat, nat)> {
    let w = sp_ws(s);
    if w < s.len() {
        let d = sp_digits_acc(s.skip(w as int), 0);
        if d.1 >= 1 && d.0 <= usize::MAX {
            Some((d.0, (w + d.1) as nat))
        } else {
            None
        }
    } else {
        None
    }
}

/// Whether the input is the object's closing `}` surrounded only by
/// whitespace.
pub open spec fn sp_close(s: Seq<char>) -> bool {
    let w = sp_ws(s);
    &&& w < s.len()
    &&& s[w as int] == '}'
    &&& sp_ws(s.skip((w + 1) as int)) == s.len() - w - 1
}

/// Parses what follows the tabs member: the comma, the `theme` key, its
/// value, and the object's closing brace; yields the theme.
pub open spec fn sp_rest_theme(r3: Seq<char>) -> Option<nat> {
    let wc = sp_ws(r3);
    if wc < r3.len() && r3[wc as int] == ',' {
        let r4 = r3.skip((wc + 1) as int);
        match sp_key(r4, "theme"@) {
            Some(k2) => {
                if k2 <= r4.len() {
                    match sp_member_theme(r4.skip(k2 as int)) {
                        Some((tv, n5)) => {
                            if n5 <= r4.len() - k2 && sp_close(
                                r4.skip(k2 as int).skip(n5 as int),
                            ) {
                                Some(tv)
                            } else {
                                None
                            }
                        },
                        None => None,
                    }
                } else {
                    None
                }
            },
            None => None,
        }
    } else {
        None
    }
}

/// Parses what follows the theme member: the comma, the `tabs` key, its
/// array, and the object's closing brace; yields the tab paths.
pub open spec fn sp_rest_tabs(r3: Seq<char>) -> Option<Seq<Seq<char>>> {
    let wc = sp_ws(r3);
    if wc < r3.len() && r3[wc as int] == ',' {
        let r4 = r3.skip((wc + 1) as int);
        match sp_key(r4, "tabs"@) {
            Some(k2) => {
                if k2 <= r4.len() {
                    match sp_member_tabs(r4.skip(k2 as int)) {
                        Some((vs, n5)) => {
                            if n5 <= r4.len() - k2 && sp_close(
                                r4.skip(k2 as int).skip(n5 as int),
                            ) {
                                Some(vs)
                            } else {
                                None
                            }
                        },
                        None => None,
                    }
                } else {
                    None
                }
            },
            None => None,
        }
    } else {
        None
    }
}

/// The object's members with the `tabs` key first.
pub open spec fn sp_obj_tabs_first(r1: Seq<char>) -> Option<(Seq<Seq<char>>, nat)> {
    match sp_key(r1, "tabs"@) {
        Some(k1) => {
            if k1 <= r1.len() {
                match sp_member_tabs(r1.skip(k1 as int)) {
                    Some((vs, n2)) => {
                        if n2 <= r1.len() - k1 {
                            match sp_rest_theme(r1.skip(k1 as int).skip(n2 as int)) {
                                Some(tv) => Some((vs, tv)),
                                None => None,
                            }
                        } else {
                            None
                        }
                    },
                    None => None,
                }
            } else {
                None
            }
        },
        None => None,
    }
}

/// The object's members with the `theme` key first.
pub open spec fn sp_obj_theme_first(r1: Seq<char>) -> Option<(Seq<Seq<char>>, nat)> {
    match sp_key(r1, "theme"@) {
        Some(k1) => {
            if k1 <= r1.len() {
                match sp_member_theme(r1.skip(k1 as int)) {
                    Some((tv, n2)) => {
                        if n2 <= r1.len() - k1 {
                            match sp_rest_tabs(r1.skip(k1 as int).skip(n2 as int)) {
                                Some(vs) => Some((vs, tv)),
                                None => None,
                            }
                        } else {
                            None
                        }
                    },
                    None => None,
                }
            } else {
                None
            }
        },
        None => None,
    }
}

/// Parses the whole persisted snapshot: a JSON object holding exactly the
/// `tabs` array of strings and the `theme` index, each once, in either key
/// order, with insignificant whitespace allowed between tokens.
pub open spec fn sp_state(s: Seq<char>) -> Option<(Seq<Seq<char>>, nat)> {
    let w0 = sp_ws(s);
    if w0 < s.len() && s[w0 as int] == '{' {
        let r1 = s.skip((w0 + 1) as int);
        if sp_key(r1, "tabs"@) is Some {
            sp_obj_tabs_first(r1)
        } else {
            sp_obj_theme_first(r1)
        }
    } else {
        None
    }
}

proof fn lemma_hex_char_val(d: int)
    requires
        0 <= d <= 15,
    ensures
        is_hex_digit(hex_char(d)),
        hex_val(hex_char(d)) == d,
{
}

proof fn lemma_content_round_trip(s: Seq<char>, rest: Seq<char>)
    ensures
        sp_content(esc(s) + seq!['"'] + rest) == Some((s, (esc(s).len() + 1) as nat)),
    decreases s.len(),
{
    let w = esc(s) + seq!['"'] + rest;
    if s.len() == 0 {
        assert(esc(s) == Seq::<char>::empty());
        assert(w[0] == '"');
        assert(sp_content(w) == Some((Seq::<char>::empty(), 1nat)));
        assert(s =~= Seq::<char>::empty());
    } else {
        assert(esc(s) == esc_char(s[0]) + esc(s.skip(1)));
        lemma_content_round_trip(s.skip(1), rest);
        let w1 = esc(s.skip(1)) + seq!['"'] + rest;
        if s[0] == '"' || s[0] == '\\' || s[0] == '\n' || s[0] == '\t' || s[0] == '\r'
            || s[0] == '\u{8}' || s[0] == '\u{c}' {
            assert(esc_char(s[0]).len() == 2);
            assert(esc_char(s[0])[0] == '\\');
            assert(w[0] == '\\');
            assert(w[1] == esc_char(s[0])[1]);
            assert(is_escape_code(esc_char(s[0])[1]));
            assert(unesc(esc_char(s[0])[1]) == s[0]);
            assert(w.skip(2) =~= w1);
            assert(sp_content(w) == Some(
                (seq![s[0]] + s.skip(1), (esc(s.skip(1)).len() + 1 + 2) as nat),
            ));
            assert(seq![s[0]] + s.skip(1) =~= s);
            assert(esc(s).len() == 2 + esc(s.skip(1)).len());
        } else if (s[0] as u32) < 0x20 {
            let cv = s[0] as u32;
            let hi = (cv / 16) as int;
            let lo = (cv % 16) as int;
            assert(esc_char(s[0]) == seq!['\\', 'u', '0', '0', hex_char(hi), hex_char(lo)]);
            assert(esc_char(s[0]).len() == 6);
            assert(w[0] == '\\');
            assert(w[1] == 'u');
            assert(w[2] == '0');
            assert(w[3] == '0');
            assert(w[4] == hex_char(hi));
            assert(w[5] == hex_char(lo));
            assert(!is_escape_code('u'));
            lemma_hex_char_val(hi);
            lemma_hex_char_val(lo);
            assert(is_hex_digit('0') && hex_val('0') == 0);
            assert(hex_code(w[2], w[3], w[4], w[5]) == (hi * 16 + lo) as nat);
            assert(hi * 16 + lo == cv);
            assert(hex_code(w[2], w[3], w[4], w[5]) < 0x100);
            vstd::utf8::char_u32_cast(s[0], cv);
            assert(hex_code(w[2], w[3], w[4], w[5]) as u32 == cv);
            assert(((hex_code(w[2], w[3], w[4], w[5]) as u32) as char) == s[0]);
            assert(w.skip(6) =~= w1);
            assert(w.len() >= 6);
            assert(sp_content(w) == Some(
                (seq![s[0]] + s.skip(1), (esc(s.skip(1)).len() + 1 + 6) as nat),
            ));
            assert(seq![s[0]] + s.skip(1) =~= s);
            assert(esc(s).len() == 6 + esc(s.skip(1)).len());
        } else {
            assert(esc_char(s[0]) == seq![s[0]]);
            assert(w[0] == s[0]);
            assert(w[0] != '"' && w[0] != '\\');
            assert(w.skip(1) =~= w1);
            assert(sp_content(w) == Some(
                (seq![s[0]] + s.skip(1), (esc(s.skip(1)).len() + 1 + 1) as nat),
            ));
            assert(seq![s[0]] + s.skip(1) =~= s);
            assert(esc(s).len() == 1 + esc(s.skip(1)).len());
        }
    }
}

#[verifier::rlimit(60)]
proof fn lemma_items_round_trip(ss: Seq<Seq<char>>, rest: Seq<char>)
    ensures
        sp_items(enc_items(ss) + seq![']'] + rest) == Some(
            (ss, (enc_items(ss).len() + 1) as nat),
        ),
    decreases ss.len(),
{
    let w = enc_items(ss) + seq![']'] + rest;
    if ss.len() == 0 {
        assert(enc_items(ss) == Seq::<char>::empty());
        assert(w[0] == ']');
        assert(sp_ws(w) == 0);
        assert(sp_items(w) == Some((Seq::<Seq<char>>::empty(), 1nat)));
        assert(ss =~= Seq::<Seq<char>>::empty());
    } else {
        let head = ss[0];
        let tail: Seq<char> = if ss.len() == 1 {
            seq![']'] + rest
        } else {
            seq![','] + enc_items(ss.skip(1)) + seq![']'] + rest
        };
        if ss.len() == 1 {
            assert(enc_items(ss) == enc_str(head));
        } else {
            assert(enc_items(ss) == enc_str(head) + seq![','] + enc_items(ss.skip(1)));
        }
        assert(w =~= enc_str(head) + tail);
        assert(w[0] == '"');
        assert(w[0] != ']');
        assert(sp_ws(w) == 0);
        assert(w.skip(0) =~= w);
        assert(w.skip(1) =~= esc(head) + seq!['"'] + tail);
        lemma_content_round_trip(head, tail);
        assert(sp_content(w.skip(1)) == Some((head, (esc(head).len() + 1) as nat)));
        let n: nat = (esc(head).len() + 2) as nat;
        assert(sp_string(w) == Some((head, n)));
        assert(n == enc_str(head).len());
        assert(n < w.len());
        assert(w[n as int] == tail[0]);
        assert(w.skip(n as int)[0] == w[n as int]);
        assert(sp_ws(w.skip(n as int)) == 0);
        if ss.len() == 1 {
            assert(w[n as int] == ']');
            assert(sp_items(w) == Some((seq![head], (n + 1) as nat)));
            assert(seq![head] =~= ss);
        } else {
            assert(w[n as int] == ',');
            assert(w.skip(n + 1int) =~= enc_items(ss.skip(1)) + seq![']'] + rest);
            lemma_items_round_trip(ss.skip(1), rest);
            assert(sp_items(w.skip(n + 1int)) == Some(
                (ss.skip(1), (enc_items(ss.skip(1)).len() + 1) as nat),
            ));
            assert(sp_items(w) == Some(
                (seq![head] + ss.skip(1), (n + 1 + enc_items(ss.skip(1)).len() + 1) as nat),
            ));
            assert(seq![head] + ss.skip(1) =~= ss);
            assert(enc_items(ss).len() == enc_str(head).len() + 1 + enc_items(
                ss.skip(1),
            ).len());
        }
    }
}

/// Powers of ten.
pub open spec fn pow10(k: nat) -> nat
    decreases k,
{
    if k == 0 {
        1
    } else {
        10 * pow10((k - 1) as nat)
    }
}

proof fn lemma_digit_char_val(d: int)
    requires
        0 <= d <= 9,
    ensures
        is_digit(digit_char(d)),
        digit_val(digit_char(d)) == d,
{
}

proof fn lemma_digits_acc(n: nat, acc: nat, rest: Seq<char>)
    ensures
        sp_digits_acc(enc_nat(n) + rest, acc).0 == sp_digits_acc(
            rest,
            acc * pow10(enc_nat(n).len()) + n,
        ).0,
        sp_digits_acc(enc_nat(n) + rest, acc).1 == enc_nat(n).len() + sp_digits_acc(
            rest,
            acc * pow10(enc_nat(n).len()) + n,
        ).1,
    decreases n,
{
    let w = enc_nat(n) + rest;
    if n < 10 {
        assert(enc_nat(n) == seq![digit_char(n as int)]);
        lemma_digit_char_val(n as int);
        assert(w[0] == digit_char(n as int));
        assert(is_digit(w[0]));
        assert(w.skip(1) =~= rest);
        assert(pow10(1) == 10 * pow10(0));
        assert(acc * 10 + digit_val(w[0]) == acc * pow10(1) + n);
    } else {
        let m = n / 10;
        let d = (n % 10) as int;
        vstd::arithmetic::div_mod::lemma_fundamental_div_mod(n as int, 10);
        assert(0 <= d <= 9);
        assert(enc_nat(n) == enc_nat(m).push(digit_char(d)));
        let rest1 = seq![digit_char(d)] + rest;
        assert(w =~= enc_nat(m) + rest1);
        lemma_digits_acc(m, acc, rest1);
        let l1 = enc_nat(m).len();
        lemma_digit_char_val(d);
        assert(rest1[0] == digit_char(d));
        assert(is_digit(rest1[0]));
        assert(rest1.skip(1) =~= rest);
        let a2: nat = (acc * pow10(l1) + m) as nat;
        assert(sp_digits_acc(rest1, a2).0 == sp_digits_acc(rest, a2 * 10 + digit_val(
            rest1[0],
        )).0);
        assert(sp_digits_acc(rest1, a2).1 == sp_digits_acc(rest, a2 * 10 + digit_val(
            rest1[0],
        )).1 + 1);
        assert(a2 * 10 + d == acc * pow10(l1 + 1) + n) by {
            assert(pow10(l1 + 1) == 10 * pow10(l1));
            assert((acc * pow10(l1) + m) * 10 == acc * (10 * pow10(l1)) + m * 10)
                by (nonlinear_arith);
            assert(m * 10 + d == n);
        };
        assert(enc_nat(n).len() == l1 + 1);
    }
}

/// Folding more digits never lowers the accumulated value.
proof fn lemma_digits_acc_lower(s: Seq<char>, acc: nat)
    ensures
        sp_digits_acc(s, acc).0 >= acc,
    decreases s.len(),
{
    if s.len() > 0 && is_digit(s[0]) {
        lemma_digits_acc_lower(s.skip(1), acc * 10 + digit_val(s[0]));
        assert(acc * 10 + digit_val(s[0]) >= acc) by (nonlinear_arith);
    }
}

/// Ground characters escape to themselves.
proof fn lemma_esc_plain(s: Seq<char>)
    requires
        forall|j: int| 0 <= j < s.len() ==> esc_char(s[j]) == seq![s[j]],
    ensures
        esc(s) == s,
    decreases s.len(),
{
    if s.len() > 0 {
        assert(forall|j: int|
            0 <= j < s.skip(1).len() ==> esc_char(s.skip(1)[j]) == seq![s.skip(1)[j]]);
        lemma_esc_plain(s.skip(1));
        assert(esc(s) == esc_char(s[0]) + esc(s.skip(1)));
        assert(seq![s[0]] + s.skip(1) =~= s);
    }
}

/// A decimal rendering starts with a digit.
proof fn lemma_enc_nat_first(n: nat)
    ensures
        enc_nat(n).len() >= 1,
        is_digit(enc_nat(n)[0]),
    decreases n,
{
    if n >= 10 {
        lemma_enc_nat_first(n / 10);
        assert(enc_nat(n)[0] == enc_nat(n / 10)[0]);
    }
}

/// A key written plainly as `"key":` parses back.
proof fn lemma_key_round_trip(key: Seq<char>, rest: Seq<char>)
    requires
        forall|j: int| 0 <= j < key.len() ==> esc_char(key[j]) == seq![key[j]],
    ensures
        sp_key(seq!['"'] + key + seq!['"'] + seq![':'] + rest, key) == Some(
            (key.len() + 3) as nat,
        ),
{
    let w = seq!['"'] + key + seq!['"'] + seq![':'] + rest;
    assert(w[0] == '"');
    assert(sp_ws(w) == 0);
    assert(w.skip(0) =~= w);
    lemma_esc_plain(key);
    assert(w.skip(1) =~= esc(key) + seq!['"'] + (seq![':'] + rest));
    lemma_content_round_trip(key, seq![':'] + rest);
    assert(sp_content(w.skip(1)) == Some((key, (esc(key).len() + 1) as nat)));
    let n: nat = (key.len() + 2) as nat;
    assert(sp_string(w) == Some((key, n)));
    assert(n < w.len());
    assert(w[n as int] == ':');
    assert(w.skip(n as int)[0] == w[n as int]);
    assert(sp_ws(w.skip(n as int)) == 0);
}

/// The round trip at the heart of persistence: parsing an encoded snapshot
/// gives back exactly the tab paths and the theme index it was built from,
/// whatever characters the paths hold.
#[verifier::rlimit(100)]
pub proof fn lemma_state_round_trip(tabs: Seq<Seq<char>>, theme: nat)
    requires
        theme <= usize::MAX,
    ensures
        sp_state(enc_state(tabs, theme)) == Some((tabs, theme)),
{
    reveal_strlit("{\"tabs\":[");
    reveal_strlit(",\"theme\":");
    reveal_strlit("tabs");
    reveal_strlit("theme");
    let w = enc_state(tabs, theme);
    let key_tabs = "tabs"@;
    let key_theme = "theme"@;
    assert(key_tabs.len() == 4);
    assert(key_theme.len() == 5);
    assert(esc_char('t') == seq!['t']);
    assert(esc_char('a') == seq!['a']);
    assert(esc_char('b') == seq!['b']);
    assert(esc_char('s') == seq!['s']);
    assert(esc_char('h') == seq!['h']);
    assert(esc_char('e') == seq!['e']);
    assert(esc_char('m') == seq!['m']);
    assert forall|j: int| 0 <= j < key_tabs.len() implies esc_char(key_tabs[j]) == seq![
        key_tabs[j],
    ] by {
        assert(key_tabs[j] == 't' || key_tabs[j] == 'a' || key_tabs[j] == 'b'
            || key_tabs[j] == 's');
    }
    assert forall|j: int| 0 <= j < key_theme.len() implies esc_char(key_theme[j]) == seq![
        key_theme[j],
    ] by {
        assert(key_theme[j] == 't' || key_theme[j] == 'h' || key_theme[j] == 'e'
            || key_theme[j] == 'm');
    }
    let body_tabs = seq!['['] + enc_items(tabs) + seq![']'];
    let tail_theme = enc_nat(theme) + seq!['}'];
    let rest_after_tabs = seq![','] + (seq!['"'] + key_theme + seq!['"'] + seq![':']
        + tail_theme);
    assert(w =~= seq!['{'] + (seq!['"'] + key_tabs + seq!['"'] + seq![':'] + (body_tabs
        + rest_after_tabs)));
    assert(w[0] == '{');
    assert(sp_ws(w) == 0);
    assert(w.skip(1) =~= seq!['"'] + key_tabs + seq!['"'] + seq![':'] + (body_tabs
        + rest_after_tabs));
    lemma_key_round_trip(key_tabs, body_tabs + rest_after_tabs);
    assert(sp_key(w.skip(1), key_tabs) == Some(7nat));
    assert(7 <= w.skip(1).len());
    let r2 = w.skip(1).skip(7);
    assert(r2 =~= body_tabs + rest_after_tabs);
    assert(r2[0] == '[');
    assert(sp_ws(r2) == 0);
    assert(r2.skip(1) =~= enc_items(tabs) + seq![']'] + rest_after_tabs);
    lemma_items_round_trip(tabs, rest_after_tabs);
    let ki: nat = (enc_items(tabs).len() + 1) as nat;
    assert(sp_items(r2.skip(1)) == Some((tabs, ki)));
    assert(sp_member_tabs(r2) == Some((tabs, (ki + 1) as nat)));
    let n2: nat = (ki + 1) as nat;
    assert(n2 <= w.skip(1).len() - 7);
    let r3 = w.skip(1).skip(7).skip(n2 as int);
    assert(r3 =~= rest_after_tabs);
    assert(r3[0] == ',');
    assert(sp_ws(r3) == 0);
    let r4 = r3.skip(1);
    assert(r4 =~= seq!['"'] + key_theme + seq!['"'] + seq![':'] + tail_theme);
    lemma_key_round_trip(key_theme, tail_theme);
    assert(sp_key(r4, key_theme) == Some(8nat));
    assert(8 <= r4.len());
    let r5 = r4.skip(8);
    assert(r5 =~= tail_theme);
    lemma_enc_nat_first(theme);
    assert(r5[0] == enc_nat(theme)[0]);
    assert(!is_ws(r5[0]));
    assert(sp_ws(r5) == 0);
    assert(r5.skip(0) =~= r5);
    lemma_digits_acc(theme, 0, seq!['}']);
    assert(!is_digit('}'));
    let ll = enc_nat(theme).len();
    assert(sp_digits_acc(seq!['}'], (0 * pow10(ll) + theme) as nat) == (
        (0 * pow10(ll) + theme) as nat,
        0nat,
    ));
    assert(0 * pow10(ll) == 0);
    assert(sp_digits_acc(r5, 0).0 == theme);
    assert(sp_digits_acc(r5, 0).1 == ll);
    assert(ll >= 1);
    assert(sp_member_theme(r5) == Some((theme, ll)));
    assert(ll <= r4.len() - 8);
    let r6 = r4.skip(8).skip(ll as int);
    assert(r6 =~= seq!['}']);
    assert(r6[0] == '}');
    assert(sp_ws(r6) == 0);
    assert(r6.skip(1) =~= Seq::<char>::empty());
    assert(sp_ws(r6.skip(1)) == 0);
    assert(sp_close(r6));
    assert(sp_rest_theme(r3) == Some(theme));
    assert(sp_obj_tabs_first(w.skip(1)) == Some((tabs, theme)));
}

fn digit_str(d: usize) -> (r: &'static str)
    requires
        d <= 9,
    ensures
        r@ == seq![digit_char(d as int)],
{
    proof {
        reveal_strlit("0");
        reveal_strlit("1");
        reveal_strlit("2");
        reveal_strlit("3");
        reveal_strlit("4");
        reveal_strlit("5");
        reveal_strlit("6");
        reveal_strlit("7");
        reveal_strlit("8");
        reveal_strlit("9");
        assert("0"@ =~= seq!['0']);
        assert("1"@ =~= seq!['1']);
        assert("2"@ =~= seq!['2']);
        assert("3"@ =~= seq!['3']);
        assert("4"@ =~= seq!['4']);
        assert("5"@ =~= seq!['5']);
        assert("6"@ =~= seq!['6']);
        assert("7"@ =~= seq!['7']);
        assert("8"@ =~= seq!['8']);
        assert("9"@ =~= seq!['9']);
    }
    if d == 0 {
        "0"
    } else if d == 1 {
        "1"
    } else if d == 2 {
        "2"
    } else if d == 3 {
        "3"
    } else if d == 4 {
        "4"
    } else if d == 5 {
        "5"
    } else if d == 6 {
        "6"
    } else if d == 7 {
        "7"
    } else if d == 8 {
        "8"
    } else {
        "9"
    }
}

fn digit_of(c: char) -> (r: Option<usize>)
    ensures
        r is Some <==> is_digit(c),
        r matches Some(d) ==> d == digit_val(c) && d <= 9,
{
    if c == '0' {
        Some(0)
    } else if c == '1' {
        Some(1)
    } else if c == '2' {
        Some(2)
    } else if c == '3' {
        Some(3)
    } else if c == '4' {
        Some(4)
    } else if c == '5' {
        Some(5)
    } else if c == '6' {
        Some(6)
    } else if c == '7' {
        Some(7)
    } else if c == '8' {
        Some(8)
    } else if c == '9' {
        Some(9)
    } else {
        None
    }
}

/// Writes a number in decimal, per `enc_nat`.
pub fn encode_nat(n: usize) -> (r: String)
    ensures
        r@ == enc_nat(n as nat),
    decreases n,
{
    if n < 10 {
        String::from_str(digit_str(n))
    } else {
        let mut r = encode_nat(n / 10);
        r.append(digit_str(n % 10));
        proof {
            assert((n / 10) as nat == (n as nat) / 10);
            assert((n % 10) as nat == (n as nat) % 10);
            assert(enc_nat((n as nat) / 10).push(digit_char(((n as nat) % 10) as int))
                =~= enc_nat((n as nat) / 10) + seq![digit_char(((n as nat) % 10) as int)]);
        }
        r
    }
}

fn hex_str(d: usize) -> (r: &'static str)
    requires
        d <= 15,
    ensures
        r@ == seq![hex_char(d as int)],
{
    if d < 10 {
        digit_str(d)
    } else {
        proof {
            reveal_strlit("a");
            reveal_strlit("b");
            reveal_strlit("c");
            reveal_strlit("d");
            reveal_strlit("e");
            reveal_strlit("f");
            assert("a"@ =~= seq!['a']);
            assert("b"@ =~= seq!['b']);
            assert("c"@ =~= seq!['c']);
            assert("d"@ =~= seq!['d']);
            assert("e"@ =~= seq!['e']);
            assert("f"@ =~= seq!['f']);
        }
        if d == 10 {
            "a"
        } else if d == 11 {
            "b"
        } else if d == 12 {
            "c"
        } else if d == 13 {
            "d"
        } else if d == 14 {
            "e"
        } else {
            "f"
        }
    }
}

fn hex_digit_of(c: char) -> (r: Option<usize>)
    ensures
        r is Some <==> is_hex_digit(c),
        r matches Some(d) ==> d == hex_val(c) && d <= 15,
{
    match digit_of(c) {
        Some(d) => Some(d),
        None => {
            if c == 'a' || c == 'A' {
                Some(10)
            } else if c == 'b' || c == 'B' {
                Some(11)
            } else if c == 'c' || c == 'C' {
                Some(12)
            } else if c == 'd' || c == 'D' {
                Some(13)
            } else if c == 'e' || c == 'E' {
                Some(14)
            } else if c == 'f' || c == 'F' {
                Some(15)
            } else {
                None
            }
        },
    }
}

/// Relies on String::push: appends the character with the given code
/// point, which for values below 0x100 is what the `u8` cast yields.
#[verifier::external_body]
fn push_code(s: &mut String, v: usize)
    requires
        v < 0x100,
    ensures
        final(s)@ == old(s)@.push(((v as u32) as char)),
{
    s.push(v as u8 as char);
}

/// Escapes a string for inclusion in a JSON string literal, per `esc`.
pub fn escape_string(s: &str) -> (r: String)
    ensures
        r@ == esc(s@),
{
    let n = s.unicode_len();
    let mut out = String::new();
    let mut i: usize = 0;
    proof {
        assert(esc(s@.take(0)) =~= Seq::<char>::empty());
    }
    while i < n
        invariant
            n == s@.len(),
            i <= n,
            out@ == esc(s@.take(i as int)),
        decreases n - i,
    {
        let c = s.get_char(i);
        proof {
            assert(s@.take(i + 1) =~= s@.take(i as int).push(s@[i as int]));
            lemma_esc_push(s@.take(i as int), s@[i as int]);
            reveal_strlit("\\\"");
            reveal_strlit("\\\\");
            reveal_strlit("\\n");
            reveal_strlit("\\t");
            reveal_strlit("\\r");
            assert("\\\""@ =~= seq!['\\', '"']);
            assert("\\\\"@ =~= seq!['\\', '\\']);
            assert("\\n"@ =~= seq!['\\', 'n']);
            assert("\\t"@ =~= seq!['\\', 't']);
            assert("\\r"@ =~= seq!['\\', 'r']);
        }
        if c == '"' {
            out.append("\\\"");
        } else if c == '\\' {
            out.append("\\\\");
        } else if c == '\n' {
            out.append("\\n");
        } else if c == '\t' {
            out.append("\\t");
        } else if c == '\r' {
            out.append("\\r");
        } else if c == '\u{8}' {
            proof {
                reveal_strlit("\\b");
                assert("\\b"@ =~= seq!['\\', 'b']);
            }
            out.append("\\b");
        } else if c == '\u{c}' {
            proof {
                reveal_strlit("\\f");
                assert("\\f"@ =~= seq!['\\', 'f']);
            }
            out.append("\\f");
        } else if (c as u32) < 32 {
            let code = c as u32;
            proof {
                reveal_strlit("\\u00");
                assert("\\u00"@ =~= seq!['\\', 'u', '0', '0']);
            }
            out.append("\\u00");
            out.append(hex_str((code / 16) as usize));
            out.append(hex_str((code % 16) as usize));
            proof {
                assert(out@ =~= esc(s@.take(i as int)) + esc_char(s@[i as int]));
            }
        } else {
            let piece = s.substring_char(i, i + 1);
            proof {
                assert(piece@ =~= seq![s@[i as int]]);
            }
            out.append(piece);
        }
        i += 1;
    }
    proof {
        assert(s@.take(n as int) =~= s@);
    }
    out
}

/// Writes the persisted snapshot as JSON text, per `enc_state`.
pub fn encode_state(state: &AppState) -> (r: String)
    ensures
        r@ == enc_state(state.tabs.deep_view(), state.theme as nat),
{
    let ghost tabs = state.tabs.deep_view();
    proof {
        reveal_strlit("{\"tabs\":[");
    }
    let mut out = String::from_str("{\"tabs\":[");
    proof {
        assert(enc_items(tabs.take(0)) =~= Seq::<char>::empty());
        assert(out@ =~= "{\"tabs\":["@ + enc_items(tabs.take(0)));
    }
    let mut i: usize = 0;
    while i < state.tabs.len()
        invariant
            tabs == state.tabs.deep_view(),
            tabs.len() == state.tabs@.len(),
            i <= state.tabs@.len(),
            out@ == "{\"tabs\":["@ + enc_items(tabs.take(i as int)),
        decreases state.tabs@.len() - i,
    {
        proof {
            reveal_strlit(",");
            reveal_strlit("\"");
            assert(","@ =~= seq![',']);
            assert("\""@ =~= seq!['"']);
            assert(tabs.take(i + 1) =~= tabs.take(i as int).push(tabs[i as int]));
            lemma_enc_items_push(tabs.take(i as int), tabs[i as int]);
            assert(tabs[i as int] == state.tabs@[i as int]@);
        }
        if i > 0 {
            out.append(",");
        }
        out.append("\"");
        let e = escape_string(state.tabs[i].as_str());
        out.append(e.as_str());
        out.append("\"");
        proof {
            assert(out@ =~= "{\"tabs\":["@ + enc_items(tabs.take(i + 1)));
        }
        i += 1;
    }
    proof {
        assert(tabs.take(tabs.len() as int) =~= tabs);
        reveal_strlit("],\"theme\":");
        reveal_strlit(",\"theme\":");
        reveal_strlit("}");
        assert("],\"theme\":"@ =~= seq![']'] + ",\"theme\":"@);
        assert("}"@ =~= seq!['}']);
    }
    out.append("],\"theme\":");
    let num = encode_nat(state.theme);
    out.append(num.as_str());
    out.append("}");
    proof {
        assert(out@ =~= enc_state(tabs, state.theme as nat));
    }
    out
}

/// Parses one string literal starting at `pos`, per `sp_string`.
fn parse_string_at(s: &str, pos: usize) -> (r: Option<(String, usize)>)
    requires
        pos <= s@.len(),
    ensures
        r is Some <==> sp_string(s@.skip(pos as int)) is Some,
        r matches Some(p) ==> {
            &&& sp_string(s@.skip(pos as int)) == Some((p.0@, (p.1 - pos) as nat))
            &&& pos < p.1 <= s@.len()
        },
{
    let n = s.unicode_len();
    if pos >= n {
        proof {
            assert(s@.skip(pos as int).len() == 0);
        }
        return None;
    }
    proof {
        assert(s@.skip(pos as int)[0] == s@[pos as int]);
    }
    if s.get_char(pos) != '"' {
        return None;
    }
    proof {
        assert(s@.skip(pos as int).skip(1) =~= s@.skip(pos + 1));
    }
    let mut out = String::new();
    let mut i: usize = pos + 1;
    proof {
        assert(out@ =~= Seq::<char>::empty());
    }
    while i < n
        invariant
            pos + 1 <= i <= n,
            n == s@.len(),
            pos < n,
            s@[pos as int] == '"',
            s@.skip(pos as int).skip(1) == s@.skip(pos + 1),
            sp_content(s@.skip(pos + 1)) is Some <==> sp_content(s@.skip(i as int))
                is Some,
            sp_content(s@.skip(i as int)) matches Some(r2) ==> sp_content(
                s@.skip(pos + 1),
            ) == Some((out@ + r2.0, ((i - pos - 1) + r2.1) as nat)),
        decreases n - i,
    {
        let c = s.get_char(i);
        proof {
            assert(s@.skip(i as int)[0] == s@[i as int]);
            assert(s@.skip(i as int).len() == n - i);
        }
        if c == '"' {
            proof {
                assert(sp_content(s@.skip(i as int)) == Some((Seq::<char>::empty(), 1nat)));
                assert(out@ + Seq::<char>::empty() =~= out@);
            }
            return Some((out, i + 1));
        }
        if c == '\\' {
            if i + 1 >= n {
                proof {
                    assert(s@.skip(i as int).len() < 2);
                    assert(sp_content(s@.skip(i as int)) is None);
                }
                return None;
            }
            let c2 = s.get_char(i + 1);
            proof {
                assert(s@.skip(i as int)[1] == s@[i + 1]);
                assert(s@.skip(i as int).skip(2) =~= s@.skip(i + 2));
                reveal_strlit("\"");
                reveal_strlit("\\");
                reveal_strlit("\n");
                reveal_strlit("\t");
                reveal_strlit("\r");
                assert("\""@ =~= seq!['"']);
                assert("\\"@ =~= seq!['\\']);
                assert("\n"@ =~= seq!['\n']);
                assert("\t"@ =~= seq!['\t']);
                assert("\r"@ =~= seq!['\r']);
            }
            let ghost out0 = out@;
            if c2 == '"' {
                out.append("\"");
            } else if c2 == '\\' {
                out.append("\\");
            } else if c2 == '/' {
                proof {
                    reveal_strlit("/");
                    assert("/"@ =~= seq!['/']);
                }
                out.append("/");
            } else if c2 == 'n' {
                out.append("\n");
            } else if c2 == 't' {
                out.append("\t");
            } else if c2 == 'r' {
                out.append("\r");
            } else if c2 == 'b' {
                proof {
                    reveal_strlit("\u{8}");
                    assert("\u{8}"@ =~= seq!['\u{8}']);
                }
                out.append("\u{8}");
            } else if c2 == 'f' {
                proof {
                    reveal_strlit("\u{c}");
                    assert("\u{c}"@ =~= seq!['\u{c}']);
                }
                out.append("\u{c}");
            } else if c2 == 'u' {
                proof {
                    assert(!is_escape_code('u'));
                }
                if n - i < 6 {
                    proof {
                        assert(s@.skip(i as int).len() < 6);
                        assert(sp_content(s@.skip(i as int)) is None);
                    }
                    return None;
                }
                let h1 = hex_digit_of(s.get_char(i + 2));
                let h2 = hex_digit_of(s.get_char(i + 3));
                let h3 = hex_digit_of(s.get_char(i + 4));
                let h4 = hex_digit_of(s.get_char(i + 5));
                proof {
                    assert(s@.skip(i as int)[2] == s@[i + 2]);
                    assert(s@.skip(i as int)[3] == s@[i + 3]);
                    assert(s@.skip(i as int)[4] == s@[i + 4]);
                    assert(s@.skip(i as int)[5] == s@[i + 5]);
                    assert(s@.skip(i as int).skip(6) =~= s@.skip(i + 6));
                }
                if h1.is_none() || h2.is_none() || h3.is_none() || h4.is_none() {
                    proof {
                        assert(sp_content(s@.skip(i as int)) is None);
                    }
                    return None;
                }
                let v: usize = ((h1.unwrap() * 16 + h2.unwrap()) * 16 + h3.unwrap()) * 16
                    + h4.unwrap();
                proof {
                    assert(v as nat == hex_code(s@[i + 2], s@[i + 3], s@[i + 4], s@[i + 5]));
                }
                if v >= 256 {
                    proof {
                        assert(sp_content(s@.skip(i as int)) is None);
                    }
                    return None;
                }
                push_code(&mut out, v);
                let ghost ch = ((v as u32) as char);
                proof {
                    assert(ch == ((hex_code(s@[i + 2], s@[i + 3], s@[i + 4], s@[i + 5])
                        as u32) as char));
                    match sp_content(s@.skip(i + 6)) {
                        Some(r3) => {
                            assert(sp_content(s@.skip(i as int)) == Some(
                                (seq![ch] + r3.0, (r3.1 + 6) as nat),
                            ));
                            assert(out0 + (seq![ch] + r3.0) =~= out@ + r3.0);
                        },
                        None => {
                            assert(sp_content(s@.skip(i as int)) is None);
                        },
                    }
                }
                i += 6;
                continue;
            } else {
                proof {
                    assert(!is_escape_code(s@[i + 1]));
                    assert(sp_content(s@.skip(i as int)) is None);
                }
                return None;
            }
            proof {
                assert(is_escape_code(s@[i + 1]));
                assert(out@ =~= out0 + seq![unesc(s@[i + 1])]);
                match sp_content(s@.skip(i + 2)) {
                    Some(r3) => {
                        assert(sp_content(s@.skip(i as int)) == Some(
                            (seq![unesc(s@[i + 1])] + r3.0, (r3.1 + 2) as nat),
                        ));
                        assert(out0 + (seq![unesc(s@[i + 1])] + r3.0) =~= out@ + r3.0);
                    },
                    None => {
                        assert(sp_content(s@.skip(i as int)) is None);
                    },
                }
            }
            i += 2;
        } else {
            let ghost out0 = out@;
            let piece = s.substring_char(i, i + 1);
            proof {
                assert(piece@ =~= seq![s@[i as int]]);
                assert(s@.skip(i as int).skip(1) =~= s@.skip(i + 1));
            }
            out.append(piece);
            proof {
                match sp_content(s@.skip(i + 1)) {
                    Some(r3) => {
                        assert(sp_content(s@.skip(i as int)) == Some(
                            (seq![s@[i as int]] + r3.0, (r3.1 + 1) as nat),
                        ));
                        assert(out0 + (seq![s@[i as int]] + r3.0) =~= out@ + r3.0);
                    },
                    None => {
                        assert(sp_content(s@.skip(i as int)) is None);
                    },
                }
            }
            i += 1;
        }
    }
    proof {
        assert(s@.skip(i as int).len() == 0);
        assert(sp_content(s@.skip(i as int)) is None);
    }
    None
}

/// Steps past insignificant whitespace, per `sp_ws`.
fn skip_ws(s: &str, pos: usize) -> (r: usize)
    requires
        pos <= s@.len(),
    ensures
        pos <= r <= s@.len(),
        r - pos == sp_ws(s@.skip(pos as int)),
{
    let n = s.unicode_len();
    let mut i: usize = pos;
    while i < n
        invariant
            pos <= i <= n,
            n == s@.len(),
            sp_ws(s@.skip(pos as int)) == (i - pos) + sp_ws(s@.skip(i as int)),
        decreases n - i,
    {
        let c = s.get_char(i);
        proof {
            assert(s@.skip(i as int)[0] == s@[i as int]);
            assert(s@.skip(i as int).skip(1) =~= s@.skip(i + 1));
        }
        if !(c == ' ' || c == '\t' || c == '\n' || c == '\r') {
            proof {
                assert(sp_ws(s@.skip(i as int)) == 0);
            }
            return i;
        }
        i += 1;
    }
    proof {
        assert(s@.skip(i as int).len() == 0);
        assert(sp_ws(s@.skip(i as int)) == 0);
    }
    i
}

/// Parses the tab array starting at `pos`, per `sp_items`.
fn parse_items_at(s: &str, pos: usize) -> (r: Option<(Vec<String>, usize)>)
    requires
        pos <= s@.len(),
    ensures
        r is Some <==> sp_items(s@.skip(pos as int)) is Some,
        r matches Some(p) ==> {
            &&& sp_items(s@.skip(pos as int)) == Some((p.0.deep_view(), (p.1 - pos) as nat))
            &&& pos < p.1 <= s@.len()
        },
    decreases s@.len() - pos,
{
    let n = s.unicode_len();
    let ghost base = s@.skip(pos as int);
    let w = skip_ws(s, pos);
    proof {
        assert(base.skip((w - pos) as int) =~= s@.skip(w as int));
    }
    if w >= n {
        return None;
    }
    let c = s.get_char(w);
    proof {
        assert(base[(w - pos) as int] == s@[w as int]);
    }
    if c == ']' {
        let vs: Vec<String> = Vec::new();
        proof {
            assert(vs.deep_view() =~= Seq::<Seq<char>>::empty());
        }
        return Some((vs, w + 1));
    }
    match parse_string_at(s, w) {
        None => None,
        Some((v, e1)) => {
            proof {
                assert(base.skip((e1 - pos) as int) =~= s@.skip(e1 as int));
            }
            let w2 = skip_ws(s, e1);
            proof {
                assert(base[(w2 - pos) as int] == s@[w2 as int] || w2 >= n);
            }
            if w2 >= n {
                return None;
            }
            let c2 = s.get_char(w2);
            proof {
                assert(base[(w2 - pos) as int] == s@[w2 as int]);
            }
            if c2 == ',' {
                proof {
                    assert(base.skip((w2 + 1 - pos) as int) =~= s@.skip((w2 + 1) as int));
                }
                match parse_items_at(s, w2 + 1) {
                    None => None,
                    Some((vs_rest, e2)) => {
                        let mut vs = vs_rest;
                        let ghost rest_deep = vs.deep_view();
                        vs.insert(0, v);
                        proof {
                            assert(vs.deep_view() =~= seq![v@] + rest_deep);
                        }
                        Some((vs, e2))
                    },
                }
            } else if c2 == ']' {
                let mut vs: Vec<String> = Vec::new();
                vs.push(v);
                proof {
                    assert(vs.deep_view() =~= seq![v@]);
                }
                Some((vs, w2 + 1))
            } else {
                None
            }
        },
    }
}

/// Parses an object key starting at `pos`, per `sp_key`.
fn parse_key_at(s: &str, pos: usize, key: &str) -> (r: Option<usize>)
    requires
        pos <= s@.len(),
    ensures
        r is Some <==> sp_key(s@.skip(pos as int), key@) is Some,
        r matches Some(e) ==> {
            &&& sp_key(s@.skip(pos as int), key@) == Some((e - pos) as nat)
            &&& pos < e <= s@.len()
        },
{
    let n = s.unicode_len();
    let ghost base = s@.skip(pos as int);
    let w = skip_ws(s, pos);
    proof {
        assert(base.skip((w - pos) as int) =~= s@.skip(w as int));
    }
    if w >= n {
        return None;
    }
    match parse_string_at(s, w) {
        None => None,
        Some((k, e1)) => {
            if !str_eq(k.as_str(), key) {
                return None;
            }
            proof {
                assert(base.skip((e1 - pos) as int) =~= s@.skip(e1 as int));
            }
            let w2 = skip_ws(s, e1);
            if w2 >= n {
                return None;
            }
            let c = s.get_char(w2);
            proof {
                assert(base[(w2 - pos) as int] == s@[w2 as int]);
            }
            if c == ':' {
                Some(w2 + 1)
            } else {
                None
            }
        },
    }
}

/// Parses the tabs member value starting at `pos`, per `sp_member_tabs`.
fn parse_member_tabs_at(s: &str, pos: usize) -> (r: Option<(Vec<String>, usize)>)
    requires
        pos <= s@.len(),
    ensures
        r is Some <==> sp_member_tabs(s@.skip(pos as int)) is Some,
        r matches Some(p) ==> {
            &&& sp_member_tabs(s@.skip(pos as int)) == Some(
                (p.0.deep_view(), (p.1 - pos) as nat),
            )
            &&& pos < p.1 <= s@.len()
        },
{
    let n = s.unicode_len();
    let ghost base = s@.skip(pos as int);
    let w = skip_ws(s, pos);
    if w >= n {
        return None;
    }
    let c = s.get_char(w);
    proof {
        assert(base[(w - pos) as int] == s@[w as int]);
    }
    if c != '[' {
        return None;
    }
    proof {
        assert(base.skip((w + 1 - pos) as int) =~= s@.skip((w + 1) as int));
    }
    match parse_items_at(s, w + 1) {
        None => None,
        Some((vs, e)) => Some((vs, e)),
    }
}

/// Parses the theme member value starting at `pos`, per `sp_member_theme`.
fn parse_member_theme_at(s: &str, pos: usize) -> (r: Option<(usize, usize)>)
    requires
        pos <= s@.len(),
    ensures
        r is Some <==> sp_member_theme(s@.skip(pos as int)) is Some,
        r matches Some(p) ==> {
            &&& sp_member_theme(s@.skip(pos as int)) == Some(
                (p.0 as nat, (p.1 - pos) as nat),
            )
            &&& pos <= p.1 <= s@.len()
        },
{
    let n = s.unicode_len();
    let ghost base = s@.skip(pos as int);
    let w = skip_ws(s, pos);
    if w >= n {
        return None;
    }
    proof {
        assert(base.skip((w - pos) as int) =~= s@.skip(w as int));
    }
    match scan_digits(s, w) {
        None => None,
        Some((val, e)) => {
            if e == w {
                return None;
            }
            Some((val, e))
        },
    }
}

/// Whether `pos` starts the object's closing brace followed only by
/// whitespace, per `sp_close`.
fn parse_close_at(s: &str, pos: usize) -> (r: bool)
    requires
        pos <= s@.len(),
    ensures
        r == sp_close(s@.skip(pos as int)),
{
    let n = s.unicode_len();
    let ghost base = s@.skip(pos as int);
    let w = skip_ws(s, pos);
    if w >= n {
        return false;
    }
    let c = s.get_char(w);
    proof {
        assert(base[(w - pos) as int] == s@[w as int]);
    }
    if c != '}' {
        return false;
    }
    proof {
        assert(base.skip((w + 1 - pos) as int) =~= s@.skip((w + 1) as int));
    }
    let wend = skip_ws(s, w + 1);
    wend >= n
}

/// Reads the digit run starting at `pos`/// Reads the digit run starting at `pos`, per `sp_digits_acc` with an empty
/// accumulator; reports when the value does not fit the index type.
fn scan_digits(s: &str, pos: usize) -> (r: Option<(usize, usize)>)
    requires
        pos <= s@.len(),
    ensures
        r matches Some(p) ==> {
            &&& sp_digits_acc(s@.skip(pos as int), 0) == (p.0 as nat, (p.1 - pos) as nat)
            &&& pos <= p.1 <= s@.len()
        },
        r is None ==> sp_digits_acc(s@.skip(pos as int), 0).0 > usize::MAX,
{
    let n = s.unicode_len();
    let mut i: usize = pos;
    let mut acc: usize = 0;
    while i < n
        invariant
            pos <= i <= n,
            n == s@.len(),
            sp_digits_acc(s@.skip(pos as int), 0).0 == sp_digits_acc(
                s@.skip(i as int),
                acc as nat,
            ).0,
            sp_digits_acc(s@.skip(pos as int), 0).1 == (i - pos) + sp_digits_acc(
                s@.skip(i as int),
                acc as nat,
            ).1,
        decreases n - i,
    {
        let c = s.get_char(i);
        proof {
            assert(s@.skip(i as int)[0] == s@[i as int]);
            assert(s@.skip(i as int).skip(1) =~= s@.skip(i + 1));
        }
        match digit_of(c) {
            None => {
                proof {
                    assert(sp_digits_acc(s@.skip(i as int), acc as nat) == (
                        acc as nat,
                        0nat,
                    ));
                }
                return Some((acc, i));
            },
            Some(d) => {
                proof {
                    vstd::arithmetic::div_mod::lemma_fundamental_div_mod(
                        (usize::MAX - d) as int,
                        10,
                    );
                }
                if acc > (usize::MAX - d) / 10 {
                    proof {
                        assert((acc as nat) * 10 + digit_val(s@[i as int]) > usize::MAX)
                            by (nonlinear_arith)
                            requires
                                acc > (usize::MAX - d) / 10,
                                usize::MAX - d == 10 * ((usize::MAX - d) / 10) + (
                                usize::MAX - d) % 10,
                                0 <= (usize::MAX - d) % 10 < 10,
                                d == digit_val(s@[i as int]),
                                d <= 9,
                        ;
                        lemma_digits_acc_lower(
                            s@.skip(i + 1),
                            (acc as nat) * 10 + digit_val(s@[i as int]),
                        );
                        assert(sp_digits_acc(s@.skip(i as int), acc as nat).0 > usize::MAX);
                    }
                    return None;
                }
                proof {
                    assert((acc as nat) * 10 + (d as nat) <= usize::MAX)
                        by (nonlinear_arith)
                        requires
                            acc <= (usize::MAX - d) / 10,
                            usize::MAX - d == 10 * ((usize::MAX - d) / 10) + (usize::MAX
                                - d) % 10,
                            0 <= (usize::MAX - d) % 10 < 10,
                    ;
                }
                acc = acc * 10 + d;
                i += 1;
            },
        }
    }
    proof {
        assert(s@.skip(i as int).len() == 0);
        assert(sp_digits_acc(s@.skip(i as int), acc as nat) == (acc as nat, 0nat));
    }
    Some((acc, i))
}

/// Parses the tail after the tabs member, per `sp_rest_theme`.
fn parse_rest_theme_at(s: &str, pos: usize) -> (r: Option<usize>)
    requires
        pos <= s@.len(),
    ensures
        r is Some <==> sp_rest_theme(s@.skip(pos as int)) is Some,
        r matches Some(tv) ==> sp_rest_theme(s@.skip(pos as int)) == Some(tv as nat),
{
    let n = s.unicode_len();
    let ghost base = s@.skip(pos as int);
    let wc = skip_ws(s, pos);
    if wc >= n {
        return None;
    }
    let cc = s.get_char(wc);
    proof {
        assert(base[(wc - pos) as int] == s@[wc as int]);
    }
    if cc != ',' {
        return None;
    }
    proof {
        assert(base.skip((wc + 1 - pos) as int) =~= s@.skip((wc + 1) as int));
    }
    match parse_key_at(s, wc + 1, "theme") {
        None => None,
        Some(k2) => {
            proof {
                assert(s@.skip((wc + 1) as int).skip((k2 - wc - 1) as int) =~= s@.skip(
                    k2 as int,
                ));
            }
            match parse_member_theme_at(s, k2) {
                None => None,
                Some((val, e5)) => {
                    proof {
                        assert(s@.skip(k2 as int).skip((e5 - k2) as int) =~= s@.skip(
                            e5 as int,
                        ));
                    }
                    if parse_close_at(s, e5) {
                        Some(val)
                    } else {
                        None
                    }
                },
            }
        },
    }
}

/// Parses the tail after the theme member, per `sp_rest_tabs`.
fn parse_rest_tabs_at(s: &str, pos: usize) -> (r: Option<Vec<String>>)
    requires
        pos <= s@.len(),
    ensures
        r is Some <==> sp_rest_tabs(s@.skip(pos as int)) is Some,
        r matches Some(vs) ==> sp_rest_tabs(s@.skip(pos as int)) == Some(vs.deep_view()),
{
    let n = s.unicode_len();
    let ghost base = s@.skip(pos as int);
    let wc = skip_ws(s, pos);
    if wc >= n {
        return None;
    }
    let cc = s.get_char(wc);
    proof {
        assert(base[(wc - pos) as int] == s@[wc as int]);
    }
    if cc != ',' {
        return None;
    }
    proof {
        assert(base.skip((wc + 1 - pos) as int) =~= s@.skip((wc + 1) as int));
    }
    match parse_key_at(s, wc + 1, "tabs") {
        None => None,
        Some(k2) => {
            proof {
                assert(s@.skip((wc + 1) as int).skip((k2 - wc - 1) as int) =~= s@.skip(
                    k2 as int,
                ));
            }
            match parse_member_tabs_at(s, k2) {
                None => None,
                Some((vs, e5)) => {
                    proof {
                        assert(s@.skip(k2 as int).skip((e5 - k2) as int) =~= s@.skip(
                            e5 as int,
                        ));
                    }
                    if parse_close_at(s, e5) {
                        Some(vs)
                    } else {
                        None
                    }
                },
            }
        },
    }
}

/// Parses the object's members with the `tabs` key first, per
/// `sp_obj_tabs_first`.
fn parse_obj_tabs_first_at(s: &str, pos: usize) -> (r: Option<AppState>)
    requires
        pos <= s@.len(),
    ensures
        r is Some <==> sp_obj_tabs_first(s@.skip(pos as int)) is Some,
        r matches Some(st) ==> sp_obj_tabs_first(s@.skip(pos as int)) == Some(
            (st.tabs.deep_view(), st.theme as nat),
        ),
{
    let ghost base = s@.skip(pos as int);
    match parse_key_at(s, pos, "tabs") {
        None => None,
        Some(k1) => {
            proof {
                assert(base.skip((k1 - pos) as int) =~= s@.skip(k1 as int));
            }
            match parse_member_tabs_at(s, k1) {
                None => None,
                Some((vs, e2)) => {
                    proof {
                        assert(base.skip((k1 - pos) as int).skip((e2 - k1) as int)
                            =~= s@.skip(e2 as int));
                    }
                    match parse_rest_theme_at(s, e2) {
                        None => None,
                        Some(val) => Some(AppState { tabs: vs, theme: val }),
                    }
                },
            }
        },
    }
}

/// Parses the object's members with the `theme` key first, per
/// `sp_obj_theme_first`.
fn parse_obj_theme_first_at(s: &str, pos: usize) -> (r: Option<AppState>)
    requires
        pos <= s@.len(),
    ensures
        r is Some <==> sp_obj_theme_first(s@.skip(pos as int)) is Some,
        r matches Some(st) ==> sp_obj_theme_first(s@.skip(pos as int)) == Some(
            (st.tabs.deep_view(), st.theme as nat),
        ),
{
    let ghost base = s@.skip(pos as int);
    match parse_key_at(s, pos, "theme") {
        None => None,
        Some(k1) => {
            proof {
                assert(base.skip((k1 - pos) as int) =~= s@.skip(k1 as int));
            }
            match parse_member_theme_at(s, k1) {
                None => None,
                Some((val, e2)) => {
                    proof {
                        assert(base.skip((k1 - pos) as int).skip((e2 - k1) as int)
                            =~= s@.skip(e2 as int));
                    }
                    match parse_rest_tabs_at(s, e2) {
                        None => None,
                        Some(vs) => Some(AppState { tabs: vs, theme: val }),
                    }
                },
            }
        },
    }
}

/// Parses a persisted snapshot, per `sp_state`: `None` exactly on input
/// the grammar rejects, otherwise the decoded paths and theme.
pub fn parse_state(s: &str) -> (r: Option<AppState>)
    ensures
        r is Some <==> sp_state(s@) is Some,
        r matches Some(st) ==> sp_state(s@) == Some((st.tabs.deep_view(), st.theme as nat)),
{
    let n = s.unicode_len();
    proof {
        assert(s@.skip(0) =~= s@);
    }
    let w0 = skip_ws(s, 0);
    if w0 >= n {
        return None;
    }
    let c0 = s.get_char(w0);
    if c0 != '{' {
        return None;
    }
    let p1 = w0 + 1;
    if parse_key_at(s, p1, "tabs").is_some() {
        parse_obj_tabs_first_at(s, p1)
    } else {
        parse_obj_theme_first_at(s, p1)
    }
}

} // verus!
