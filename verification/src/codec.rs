//! The on-disk text format of the collection: a pretty-printed JSON
//! array of card objects, two-space indented, with the fields
//! `question`, `answers`, `correct_question` and `image` in that order.
//! The encoder is specified exactly; the parser accepts the same shape
//! with arbitrary blanks between tokens.

use vstd::prelude::*;

use crate::card::{seq_views, CardModel, Flashcard};

verus! {

/// The lower-case hexadecimal digit for `d`.
pub open spec fn hexdig(d: int) -> char {
    if d < 10 {
        ((0x30 + d) as u32) as char
    } else {
        ((87 + d) as u32) as char
    }
}

/// How one character appears inside a JSON string literal: quote,
/// backslash and the named control characters take a two-character
/// escape, other control characters a `\u00xx` escape, everything else
/// stands for itself.
pub open spec fn esc_char(c: char) -> Seq<char> {
    if c == '"' {
        seq!['\\', '"']
    } else if c == '\\' {
        seq!['\\', '\\']
    } else if c == '\u{8}' {
        seq!['\\', 'b']
    } else if c == '\u{9}' {
        seq!['\\', 't']
    } else if c == '\u{A}' {
        seq!['\\', 'n']
    } else if c == '\u{C}' {
        seq!['\\', 'f']
    } else if c == '\u{D}' {
        seq!['\\', 'r']
    } else if (c as u32) < 0x20 {
        seq!['\\', 'u', '0', '0', hexdig((c as u32) as int / 16), hexdig((c as u32) as int % 16)]
    } else {
        seq![c]
    }
}

/// The body of a JSON string literal holding the text `t`.
pub open spec fn esc_string(t: Seq<char>) -> Seq<char>
    decreases t.len(),
{
    if t.len() == 0 {
        Seq::<char>::empty()
    } else {
        esc_char(t[0]) + esc_string(t.drop_first())
    }
}

/// A JSON string literal holding the text `t`.
pub open spec fn quoted(t: Seq<char>) -> Seq<char> {
    seq!['"'] + esc_string(t) + seq!['"']
}

/// The decimal digits of `n`, most significant first.
pub open spec fn dec_rep(n: nat) -> Seq<char>
    decreases n,
{
    if n < 10 {
        seq![hexdig(n as int)]
    } else {
        dec_rep(n / 10).push(hexdig((n % 10) as int))
    }
}

/// The image field: `null`, or a string literal with the path.
pub open spec fn enc_image(img: Option<Seq<char>>) -> Seq<char> {
    match img {
        None => "null"@,
        Some(t) => quoted(t),
    }
}

/// The answer lines of one card, comma-separated, each on its own
/// six-space-indented line.
pub open spec fn enc_answer_items(ans: Seq<Seq<char>>) -> Seq<char>
    decreases ans.len(),
{
    if ans.len() == 0 {
        Seq::<char>::empty()
    } else if ans.len() == 1 {
        "      "@ + quoted(ans[0])
    } else {
        "      "@ + quoted(ans[0]) + ",\n"@ + enc_answer_items(ans.drop_first())
    }
}

/// One card object, two-space indented, fields in their fixed order.
pub open spec fn enc_card(m: CardModel) -> Seq<char> {
    "  {\n    \"question\": "@ + quoted(m.question) + ",\n    \"answers\": [\n"@
        + enc_answer_items(m.answers) + "\n    ],\n    \"correct_question\": "@ + dec_rep(
        m.correct_index as nat,
    ) + ",\n    \"image\": "@ + enc_image(m.image) + "\n  }"@
}

/// The card objects of the collection, comma-separated.
pub open spec fn enc_card_items(ms: Seq<CardModel>) -> Seq<char>
    decreases ms.len(),
{
    if ms.len() == 0 {
        Seq::<char>::empty()
    } else if ms.len() == 1 {
        enc_card(ms[0])
    } else {
        enc_card(ms[0]) + ",\n"@ + enc_card_items(ms.drop_first())
    }
}

/// The whole stored document: `[]` when empty, otherwise the card
/// objects between brackets, one per line.
pub open spec fn spec_encode_cards(ms: Seq<CardModel>) -> Seq<char> {
    if ms.len() == 0 {
        "[]"@
    } else {
        "[\n"@ + enc_card_items(ms) + "\n]"@
    }
}

/// Relies on String::push: appends exactly one character.
#[verifier::external_body]
fn push_char(s: &mut String, c: char)
    ensures
        final(s)@ == old(s)@.push(c),
{
    s.push(c);
}

/// Relies on char::from_u32: for a scalar value below the surrogate
/// range it returns the character with that code.
#[verifier::external_body]
fn char_from_u32(v: u32) -> (c: char)
    requires
        v < 0xD800,
    ensures
        c == (v as char),
{
    char::from_u32(v).unwrap()
}

/// The lower-case hexadecimal digit for `d`.
fn hexdig_exec(d: u32) -> (c: char)
    requires
        d < 16,
    ensures
        c == hexdig(d as int),
{
    if d < 10 {
        char_from_u32(0x30 + d)
    } else {
        char_from_u32(87 + d)
    }
}

proof fn lemma_esc_string_push(p: Seq<char>, c: char)
    ensures
        esc_string(p.push(c)) == esc_string(p) + esc_char(c),
    decreases p.len(),
{
    let q = p.push(c);
    assert(q.len() == p.len() + 1);
    assert(esc_string(q) == esc_char(q[0]) + esc_string(q.drop_first()));
    if p.len() == 0 {
        assert(q[0] == c);
        assert(q.drop_first() =~= Seq::<char>::empty());
        assert(esc_string(Seq::<char>::empty()) == Seq::<char>::empty());
        assert(esc_string(q) =~= esc_char(c));
        assert(esc_string(p) == Seq::<char>::empty());
        assert(esc_string(p) + esc_char(c) =~= esc_char(c));
    } else {
        assert(q[0] == p[0]);
        assert(q.drop_first() =~= p.drop_first().push(c));
        lemma_esc_string_push(p.drop_first(), c);
        assert(esc_string(p) == esc_char(p[0]) + esc_string(p.drop_first()));
        assert(esc_string(q) =~= esc_string(p) + esc_char(c));
    }
}

/// Appends the JSON string literal holding `t` to `out`.
fn encode_string_into(out: &mut String, t: &str)
    ensures
        final(out)@ == old(out)@ + quoted(t@),
{
    push_char(out, '"');
    let n = t.unicode_len();
    let mut i: usize = 0;
    while i < n
        invariant
            0 <= i <= n,
            n == t@.len(),
            out@ == old(out)@ + seq!['"'] + esc_string(t@.subrange(0, i as int)),
        decreases n - i,
    {
        let c = t.get_char(i);
        let u = c as u32;
        if c == '"' {
            push_char(out, '\\');
            push_char(out, '"');
        } else if c == '\\' {
            push_char(out, '\\');
            push_char(out, '\\');
        } else if u == 0x8 {
            push_char(out, '\\');
            push_char(out, 'b');
        } else if u == 0x9 {
            push_char(out, '\\');
            push_char(out, 't');
        } else if u == 0xA {
            push_char(out, '\\');
            push_char(out, 'n');
        } else if u == 0xC {
            push_char(out, '\\');
            push_char(out, 'f');
        } else if u == 0xD {
            push_char(out, '\\');
            push_char(out, 'r');
        } else if u < 0x20 {
            push_char(out, '\\');
            push_char(out, 'u');
            push_char(out, '0');
            push_char(out, '0');
            push_char(out, hexdig_exec(u / 16));
            push_char(out, hexdig_exec(u % 16));
        } else {
            push_char(out, c);
        }
        proof {
            let p = t@.subrange(0, i as int);
            lemma_esc_string_push(p, t@[i as int]);
            assert(t@.subrange(0, i + 1 as int) =~= p.push(t@[i as int]));
            assert(out@ =~= old(out)@ + seq!['"'] + esc_string(t@.subrange(0, i + 1 as int)));
        }
        i = i + 1;
    }
    push_char(out, '"');
    proof {
        assert(t@.subrange(0, n as int) =~= t@);
        assert(out@ =~= old(out)@ + quoted(t@));
    }
}

/// The decimal representation of `n`.
fn dec_str(n: usize) -> (s: String)
    ensures
        s@ == dec_rep(n as nat),
    decreases n,
{
    if n < 10 {
        let mut s = String::new();
        push_char(&mut s, hexdig_exec(n as u32));
        proof {
            assert(s@ =~= seq![hexdig(n as int)]);
        }
        s
    } else {
        let mut s = dec_str(n / 10);
        push_char(&mut s, hexdig_exec((n % 10) as u32));
        s
    }
}

/// The answer lines of `ans` from position `i` on.
fn enc_answers_rec(ans: &Vec<String>, i: usize) -> (s: String)
    requires
        i < ans.len(),
    ensures
        s@ == enc_answer_items(seq_views(ans@).subrange(i as int, ans@.len() as int)),
    decreases ans.len() - i,
{
    let mut out = String::from_str("      ");
    encode_string_into(&mut out, ans[i].as_str());
    if i + 1 < ans.len() {
        out.append(",\n");
        let rest = enc_answers_rec(ans, i + 1);
        out.append(rest.as_str());
    }
    proof {
        let sub = seq_views(ans@).subrange(i as int, ans@.len() as int);
        assert(sub[0] == ans@[i as int]@);
        if i + 1 < ans.len() {
            assert(sub.drop_first() =~= seq_views(ans@).subrange(i + 1 as int, ans@.len() as int));
            assert(out@ =~= enc_answer_items(sub));
        } else {
            assert(sub.len() == 1);
            assert(out@ =~= enc_answer_items(sub));
        }
    }
    out
}

/// One card object, as `enc_card` describes it.
fn encode_card(card: &Flashcard) -> (s: String)
    requires
        card@.wf(),
    ensures
        s@ == enc_card(card@),
{
    let mut out = String::from_str("  {\n    \"question\": ");
    encode_string_into(&mut out, card.question().as_str());
    out.append(",\n    \"answers\": [\n");
    let ans = card.answers();
    let items = enc_answers_rec(ans, 0);
    out.append(items.as_str());
    out.append("\n    ],\n    \"correct_question\": ");
    let d = dec_str(card.correct_index());
    out.append(d.as_str());
    out.append(",\n    \"image\": ");
    match card.image() {
        Some(s) => encode_string_into(&mut out, s.as_str()),
        None => out.append("null"),
    }
    out.append("\n  }");
    proof {
        assert(seq_views(ans@).subrange(0, ans@.len() as int) =~= card@.answers);
        assert(out@ =~= enc_card(card@));
    }
    out
}

/// The card objects of `cards` from position `i` on.
fn enc_cards_rec(cards: &Vec<Flashcard>, i: usize) -> (s: String)
    requires
        i < cards.len(),
        forall|j: int| 0 <= j < cards@.len() ==> (#[trigger] cards@[j])@.wf(),
    ensures
        s@ == enc_card_items(crate::card::models(cards@).subrange(i as int, cards@.len() as int)),
    decreases cards.len() - i,
{
    let mut out = encode_card(&cards[i]);
    if i + 1 < cards.len() {
        out.append(",\n");
        let rest = enc_cards_rec(cards, i + 1);
        out.append(rest.as_str());
    }
    proof {
        let ms = crate::card::models(cards@);
        let sub = ms.subrange(i as int, cards@.len() as int);
        assert(sub[0] == cards@[i as int]@);
        if i + 1 < cards.len() {
            assert(sub.drop_first() =~= ms.subrange(i + 1 as int, cards@.len() as int));
            assert(out@ =~= enc_card_items(sub));
        } else {
            assert(sub.len() == 1);
            assert(out@ =~= enc_card_items(sub));
        }
    }
    out
}

/// Serializes the whole collection in its stored form.
pub fn encode_cards(cards: &Vec<Flashcard>) -> (s: String)
    requires
        forall|j: int| 0 <= j < cards@.len() ==> (#[trigger] cards@[j])@.wf(),
    ensures
        s@ == spec_encode_cards(crate::card::models(cards@)),
{
    if cards.len() == 0 {
        assert(crate::card::models(cards@).len() == 0);
        String::from_str("[]")
    } else {
        let mut out = String::from_str("[\n");
        let items = enc_cards_rec(cards, 0);
        out.append(items.as_str());
        out.append("\n]");
        proof {
            let ms = crate::card::models(cards@);
            assert(ms.subrange(0, cards@.len() as int) =~= ms);
            assert(out@ =~= spec_encode_cards(ms));
        }
        out
    }
}

// ---------------------------------------------------------------------------
// The parser: the same shape, with arbitrary blanks between tokens.
// ---------------------------------------------------------------------------
/// The blank characters JSON allows between tokens.
pub open spec fn is_gap_char(c: char) -> bool {
    c == ' ' || c == '\t' || c == '\n' || c == '\r'
}

/// The first position at or after `i` holding no blank.
pub open spec fn skip_gaps(s: Seq<char>, i: int) -> int
    decreases s.len() - i,
{
    if 0 <= i && i < s.len() && is_gap_char(s[i]) {
        skip_gaps(s, i + 1)
    } else {
        i
    }
}

pub proof fn lemma_skip_gaps(s: Seq<char>, i: int)
    requires
        0 <= i <= s.len(),
    ensures
        i <= skip_gaps(s, i) <= s.len(),
    decreases s.len() - i,
{
    if i < s.len() && is_gap_char(s[i]) {
        lemma_skip_gaps(s, i + 1);
    }
}

/// Matches `lit` from its position `k` on against `s` at `i`; the
/// position just past the match, if it is there.
pub open spec fn scan_lit(s: Seq<char>, i: int, lit: Seq<char>, k: int) -> Option<int>
    decreases lit.len() - k,
{
    if k >= lit.len() {
        Some(i)
    } else if 0 <= i && i < s.len() && s[i] == lit[k] {
        scan_lit(s, i + 1, lit, k + 1)
    } else {
        None
    }
}

proof fn lemma_scan_lit(s: Seq<char>, i: int, lit: Seq<char>, k: int)
    requires
        0 <= i <= s.len(),
        0 <= k <= lit.len(),
    ensures
        scan_lit(s, i, lit, k) matches Some(j) ==> i <= j <= s.len() && j == i + lit.len() - k,
    decreases lit.len() - k,
{
    if k < lit.len() && 0 <= i && i < s.len() && s[i] == lit[k] {
        lemma_scan_lit(s, i + 1, lit, k + 1);
    }
}

/// The numeric value of a hexadecimal digit, or -1.
pub open spec fn hex_val(c: char) -> int {
    let u = c as u32;
    if 0x30 <= u && u <= 0x39 {
        u - 0x30
    } else if 0x61 <= u && u <= 0x66 {
        u - 87
    } else if 0x41 <= u && u <= 0x46 {
        u - 55
    } else {
        -1
    }
}

/// The character a two-character escape stands for.
pub open spec fn unesc_char(e: char) -> char {
    if e == '"' {
        '"'
    } else if e == '\\' {
        '\\'
    } else if e == 'n' {
        '\n'
    } else if e == 'r' {
        '\r'
    } else if e == 't' {
        '\t'
    } else if e == 'b' {
        '\u{8}'
    } else {
        '\u{C}'
    }
}

/// Reads a JSON string body starting just past the opening quote:
/// the text it holds and the position past the closing quote.
pub open spec fn scan_str_body(s: Seq<char>, i: int) -> Option<(Seq<char>, int)>
    decreases s.len() - i,
{
    if !(0 <= i && i < s.len()) {
        None
    } else if s[i] == '"' {
        Some((Seq::<char>::empty(), i + 1))
    } else if s[i] == '\\' {
        if i + 1 < s.len() {
            let e = s[i + 1];
            if e == '"' || e == '\\' || e == 'n' || e == 'r' || e == 't' || e == 'b' || e == 'f' {
                match scan_str_body(s, i + 2) {
                    Some(p) => Some((seq![unesc_char(e)] + p.0, p.1)),
                    None => None,
                }
            } else if e == 'u' {
                if i + 5 < s.len() && s[i + 2] == '0' && s[i + 3] == '0' && hex_val(s[i + 4]) >= 0
                    && hex_val(s[i + 5]) >= 0 {
                    let v = hex_val(s[i + 4]) * 16 + hex_val(s[i + 5]);
                    match scan_str_body(s, i + 6) {
                        Some(p) => Some((seq![((v as u32) as char)] + p.0, p.1)),
                        None => None,
                    }
                } else {
                    None
                }
            } else {
                None
            }
        } else {
            None
        }
    } else if (s[i] as u32) < 0x20 {
        None
    } else {
        match scan_str_body(s, i + 1) {
            Some(p) => Some((seq![s[i]] + p.0, p.1)),
            None => None,
        }
    }
}

proof fn lemma_scan_str_body(s: Seq<char>, i: int)
    requires
        0 <= i,
    ensures
        scan_str_body(s, i) matches Some(p) ==> i < p.1 <= s.len(),
    decreases s.len() - i,
{
    if 0 <= i && i < s.len() {
        if s[i] == '"' {
        } else if s[i] == '\\' {
            if i + 1 < s.len() {
                lemma_scan_str_body(s, i + 2);
                if i + 5 < s.len() {
                    lemma_scan_str_body(s, i + 6);
                }
            }
        } else {
            lemma_scan_str_body(s, i + 1);
        }
    }
}

/// Reads a JSON string literal at `i`.
pub open spec fn scan_string(s: Seq<char>, i: int) -> Option<(Seq<char>, int)> {
    if 0 <= i && i < s.len() && s[i] == '"' {
        scan_str_body(s, i + 1)
    } else {
        None
    }
}

proof fn lemma_scan_string(s: Seq<char>, i: int)
    requires
        0 <= i,
    ensures
        scan_string(s, i) matches Some(p) ==> i < p.1 <= s.len(),
{
    if 0 <= i && i < s.len() && s[i] == '"' {
        lemma_scan_str_body(s, i + 1);
    }
}

/// A decimal digit.
pub open spec fn is_digit(c: char) -> bool {
    0x30 <= (c as u32) && (c as u32) <= 0x39
}

/// The value of a decimal digit.
pub open spec fn digit_val(c: char) -> int {
    (c as u32) - 0x30
}

/// Reads an index number: one digit, or two with no leading zero.
/// Longer numbers can never name a valid answer and are rejected.
pub open spec fn scan_number(s: Seq<char>, i: int) -> Option<(int, int)> {
    if !(0 <= i && i < s.len()) || !is_digit(s[i]) {
        None
    } else {
        let d1 = digit_val(s[i]);
        if i + 1 < s.len() && is_digit(s[i + 1]) {
            if d1 == 0 {
                None
            } else if i + 2 < s.len() && is_digit(s[i + 2]) {
                None
            } else {
                Some((d1 * 10 + digit_val(s[i + 1]), i + 2))
            }
        } else {
            Some((d1, i + 1))
        }
    }
}

proof fn lemma_scan_number(s: Seq<char>, i: int)
    ensures
        scan_number(s, i) matches Some(p) ==> i < p.1 <= s.len() && 0 <= p.0 <= 99,
{
}

/// Reads the image value: `null` or a string literal.
pub open spec fn scan_image_val(s: Seq<char>, i: int) -> Option<(Option<Seq<char>>, int)> {
    if 0 <= i && i < s.len() && s[i] == 'n' {
        match scan_lit(s, i, "null"@, 0) {
            Some(j) => Some((None, j)),
            None => None,
        }
    } else {
        match scan_string(s, i) {
            Some(p) => Some((Some(p.0), p.1)),
            None => None,
        }
    }
}

proof fn lemma_scan_image_val(s: Seq<char>, i: int)
    requires
        0 <= i <= s.len(),
    ensures
        scan_image_val(s, i) matches Some(p) ==> i < p.1 <= s.len(),
{
    reveal_strlit("null");
    lemma_scan_lit(s, i, "null"@, 0);
    lemma_scan_string(s, i);
}

/// Reads the rest of the answer array after one item: either a comma
/// and another string, or the closing bracket.
pub open spec fn scan_answers_rest(s: Seq<char>, i: int, acc: Seq<Seq<char>>) -> Option<
    (Seq<Seq<char>>, int),
>
    decreases s.len() - i,
    via scan_answers_rest_dec
{
    if !(0 <= i && i <= s.len()) {
        None
    } else {
        let k = skip_gaps(s, i);
        if k < s.len() && s[k] == ',' {
            let k2 = skip_gaps(s, k + 1);
            match scan_string(s, k2) {
                Some(p) => scan_answers_rest(s, p.1, acc.push(p.0)),
                None => None,
            }
        } else if k < s.len() && s[k] == ']' {
            Some((acc, k + 1))
        } else {
            None
        }
    }
}

#[via_fn]
proof fn scan_answers_rest_dec(s: Seq<char>, i: int, acc: Seq<Seq<char>>) {
    if 0 <= i && i <= s.len() {
        lemma_skip_gaps(s, i);
        let k = skip_gaps(s, i);
        if k < s.len() && s[k] == ',' {
            lemma_skip_gaps(s, k + 1);
            lemma_scan_string(s, skip_gaps(s, k + 1));
        }
    }
}

proof fn lemma_scan_answers_rest(s: Seq<char>, i: int, acc: Seq<Seq<char>>)
    requires
        0 <= i <= s.len(),
    ensures
        scan_answers_rest(s, i, acc) matches Some(p) ==> i < p.1 <= s.len(),
    decreases s.len() - i,
{
    lemma_skip_gaps(s, i);
    let k = skip_gaps(s, i);
    if k < s.len() && s[k] == ',' {
        lemma_skip_gaps(s, k + 1);
        let k2 = skip_gaps(s, k + 1);
        lemma_scan_string(s, k2);
        match scan_string(s, k2) {
            Some(p) => {
                lemma_scan_answers_rest(s, p.1, acc.push(p.0));
            },
            None => {},
        }
    }
}

/// Reads the whole answer array at its opening bracket.
pub open spec fn scan_answers(s: Seq<char>, i: int) -> Option<(Seq<Seq<char>>, int)> {
    if 0 <= i && i < s.len() && s[i] == '[' {
        let k = skip_gaps(s, i + 1);
        if k < s.len() && s[k] == ']' {
            Some((Seq::<Seq<char>>::empty(), k + 1))
        } else {
            match scan_string(s, k) {
                Some(p) => scan_answers_rest(s, p.1, seq![p.0]),
                None => None,
            }
        }
    } else {
        None
    }
}

proof fn lemma_scan_answers(s: Seq<char>, i: int)
    requires
        0 <= i <= s.len(),
    ensures
        scan_answers(s, i) matches Some(p) ==> i < p.1 <= s.len(),
{
    if 0 <= i && i < s.len() && s[i] == '[' {
        lemma_skip_gaps(s, i + 1);
        let k = skip_gaps(s, i + 1);
        lemma_scan_string(s, k);
        match scan_string(s, k) {
            Some(p) => {
                lemma_scan_answers_rest(s, p.1, seq![p.0]);
            },
            None => {},
        }
    }
}

/// Reads a key: blanks, the quoted name, blanks, a colon, blanks; the
/// position of the value.
pub open spec fn scan_key(s: Seq<char>, i: int, name: Seq<char>) -> Option<int> {
    let k = skip_gaps(s, i);
    match scan_lit(s, k, name, 0) {
        None => None,
        Some(j) => {
            let k2 = skip_gaps(s, j);
            if k2 < s.len() && s[k2] == ':' {
                Some(skip_gaps(s, k2 + 1))
            } else {
                None
            }
        },
    }
}

proof fn lemma_scan_key(s: Seq<char>, i: int, name: Seq<char>)
    requires
        0 <= i <= s.len(),
    ensures
        scan_key(s, i, name) matches Some(p) ==> i <= p <= s.len() && (name.len() > 0 ==> i < p),
{
    lemma_skip_gaps(s, i);
    let k = skip_gaps(s, i);
    lemma_scan_lit(s, k, name, 0);
    match scan_lit(s, k, name, 0) {
        Some(j) => {
            lemma_skip_gaps(s, j);
            let k2 = skip_gaps(s, j);
            if k2 < s.len() && s[k2] == ':' {
                lemma_skip_gaps(s, k2 + 1);
            }
        },
        None => {},
    }
}

/// Reads a comma token surrounded by blanks.
pub open spec fn scan_comma(s: Seq<char>, i: int) -> Option<int> {
    let k = skip_gaps(s, i);
    if k < s.len() && s[k] == ',' {
        Some(k + 1)
    } else {
        None
    }
}

proof fn lemma_scan_comma(s: Seq<char>, i: int)
    requires
        0 <= i <= s.len(),
    ensures
        scan_comma(s, i) matches Some(p) ==> i < p <= s.len(),
{
    lemma_skip_gaps(s, i);
}

/// Reads one card object and checks it is well-formed: the four fields
/// in their fixed order, between braces.
pub open spec fn scan_card(s: Seq<char>, i: int) -> Option<(CardModel, int)> {
    let k0 = skip_gaps(s, i);
    if !(k0 < s.len() && s[k0] == '{') {
        None
    } else {
        match scan_key(s, k0 + 1, "\"question\""@) {
            None => None,
            Some(p1) => match scan_string(s, p1) {
                None => None,
                Some(q) => match scan_comma(s, q.1) {
                    None => None,
                    Some(c1) => match scan_key(s, c1, "\"answers\""@) {
                        None => None,
                        Some(p2) => match scan_answers(s, p2) {
                            None => None,
                            Some(ans) => match scan_comma(s, ans.1) {
                                None => None,
                                Some(c2) => match scan_key(s, c2, "\"correct_question\""@) {
                                    None => None,
                                    Some(p3) => match scan_number(s, p3) {
                                        None => None,
                                        Some(num) => match scan_comma(s, num.1) {
                                            None => None,
                                            Some(c3) => match scan_key(s, c3, "\"image\""@) {
                                                None => None,
                                                Some(p4) => match scan_image_val(s, p4) {
                                                    None => None,
                                                    Some(img) => {
                                                        let k9 = skip_gaps(s, img.1);
                                                        if k9 < s.len() && s[k9] == '}' {
                                                            let m = CardModel {
                                                                question: q.0,
                                                                answers: ans.0,
                                                                correct_index: num.0,
                                                                image: img.0,
                                                            };
                                                            if m.wf() {
                                                                Some((m, k9 + 1))
                                                            } else {
                                                                None
                                                            }
                                                        } else {
                                                            None
                                                        }
                                                    },
                                                },
                                            },
                                        },
                                    },
                                },
                            },
                        },
                    },
                },
            },
        }
    }
}

pub proof fn lemma_scan_card(s: Seq<char>, i: int)
    requires
        0 <= i <= s.len(),
    ensures
        scan_card(s, i) matches Some(p) ==> i < p.1 <= s.len() && p.0.wf(),
{
    lemma_skip_gaps(s, i);
    let k0 = skip_gaps(s, i);
    if k0 < s.len() && s[k0] == '{' {
        lemma_scan_key(s, k0 + 1, "\"question\""@);
        match scan_key(s, k0 + 1, "\"question\""@) {
            None => {},
            Some(p1) => {
                lemma_scan_string(s, p1);
                match scan_string(s, p1) {
                    None => {},
                    Some(q) => {
                        lemma_scan_comma(s, q.1);
                        match scan_comma(s, q.1) {
                            None => {},
                            Some(c1) => {
                                lemma_scan_key(s, c1, "\"answers\""@);
                                match scan_key(s, c1, "\"answers\""@) {
                                    None => {},
                                    Some(p2) => {
                                        lemma_scan_answers(s, p2);
                                        match scan_answers(s, p2) {
                                            None => {},
                                            Some(ans) => {
                                                lemma_scan_comma(s, ans.1);
                                                match scan_comma(s, ans.1) {
                                                    None => {},
                                                    Some(c2) => {
                                                        lemma_scan_key(
                                                            s,
                                                            c2,
                                                            "\"correct_question\""@,
                                                        );
                                                        match scan_key(
                                                            s,
                                                            c2,
                                                            "\"correct_question\""@,
                                                        ) {
                                                            None => {},
                                                            Some(p3) => {
                                                                lemma_scan_number(s, p3);
                                                                match scan_number(s, p3) {
                                                                    None => {},
                                                                    Some(num) => {
                                                                        lemma_scan_comma(s, num.1);
                                                                        match scan_comma(s, num.1) {
                                                                            None => {},
                                                                            Some(c3) => {
                                                                                lemma_scan_key(
                                                                                    s,
                                                                                    c3,
                                                                                    "\"image\""@,
                                                                                );
                                                                                match scan_key(
                                                                                    s,
                                                                                    c3,
                                                                                    "\"image\""@,
                                                                                ) {
                                                                                    None => {},
                                                                                    Some(p4) => {
                                                                                        lemma_scan_image_val(
                                                                                            s,
                                                                                            p4,
                                                                                        );
                                                                                        match scan_image_val(
                                                                                            s,
                                                                                            p4,
                                                                                        ) {
                                                                                            None => {
                                                                                            },
                                                                                            Some(
                                                                                                img,
                                                                                            ) => {
                                                                                                lemma_skip_gaps(
                                                                                                    s,
                                                                                                    img.1,
                                                                                                );
                                                                                            },
                                                                                        }
                                                                                    },
                                                                                }
                                                                            },
                                                                        }
                                                                    },
                                                                }
                                                            },
                                                        }
                                                    },
                                                }
                                            },
                                        }
                                    },
                                }
                            },
                        }
                    },
                }
            },
        }
    }
}

/// Reads the rest of the card list after one card: either a comma and
/// another card, or the closing bracket.
pub open spec fn scan_cards_rest(s: Seq<char>, i: int, acc: Seq<CardModel>) -> Option<
    (Seq<CardModel>, int),
>
    decreases s.len() - i,
    via scan_cards_rest_dec
{
    if !(0 <= i && i <= s.len()) {
        None
    } else {
        let k = skip_gaps(s, i);
        if k < s.len() && s[k] == ',' {
            match scan_card(s, k + 1) {
                Some(p) => scan_cards_rest(s, p.1, acc.push(p.0)),
                None => None,
            }
        } else if k < s.len() && s[k] == ']' {
            Some((acc, k + 1))
        } else {
            None
        }
    }
}

#[via_fn]
proof fn scan_cards_rest_dec(s: Seq<char>, i: int, acc: Seq<CardModel>) {
    if 0 <= i && i <= s.len() {
        lemma_skip_gaps(s, i);
        let k = skip_gaps(s, i);
        if k < s.len() && s[k] == ',' {
            lemma_scan_card(s, k + 1);
        }
    }
}

proof fn lemma_scan_cards_rest(s: Seq<char>, i: int, acc: Seq<CardModel>)
    requires
        0 <= i <= s.len(),
    ensures
        scan_cards_rest(s, i, acc) matches Some(p) ==> i < p.1 <= s.len(),
    decreases s.len() - i,
{
    lemma_skip_gaps(s, i);
    let k = skip_gaps(s, i);
    if k < s.len() && s[k] == ',' {
        lemma_scan_card(s, k + 1);
        match scan_card(s, k + 1) {
            Some(p) => {
                lemma_scan_cards_rest(s, p.1, acc.push(p.0));
            },
            None => {},
        }
    }
}

/// Reads a whole stored document: the card list between brackets, with
/// nothing but blanks after it. Every card of a readable document is
/// well-formed.
pub open spec fn spec_parse(s: Seq<char>) -> Option<Seq<CardModel>> {
    let k = skip_gaps(s, 0);
    if !(k < s.len() && s[k] == '[') {
        None
    } else {
        let k1 = skip_gaps(s, k + 1);
        if k1 < s.len() && s[k1] == ']' {
            if skip_gaps(s, k1 + 1) == s.len() {
                Some(Seq::<CardModel>::empty())
            } else {
                None
            }
        } else {
            match scan_card(s, k1) {
                None => None,
                Some(p0) => match scan_cards_rest(s, p0.1, seq![p0.0]) {
                    None => None,
                    Some(ms) => if skip_gaps(s, ms.1) == s.len() {
                        Some(ms.0)
                    } else {
                        None
                    },
                },
            }
        }
    }
}

/// The first position at or after `i` holding no blank.
fn ex_skip(s: &str, n: usize, i: usize) -> (r: usize)
    requires
        n == s@.len(),
        i <= n,
    ensures
        r as int == skip_gaps(s@, i as int),
        i <= r <= n,
    decreases n - i,
{
    if i < n {
        let c = s.get_char(i);
        if c == ' ' || c == '\t' || c == '\n' || c == '\r' {
            return ex_skip(s, n, i + 1);
        }
    }
    i
}

/// Matches `lit` from its position `k` on against `s` at `i`.
fn ex_lit(s: &str, n: usize, i: usize, lit: &str, ln: usize, k: usize) -> (r: Option<usize>)
    requires
        n == s@.len(),
        i <= n,
        ln == lit@.len(),
        k <= ln,
    ensures
        (match r {
            Some(j) => scan_lit(s@, i as int, lit@, k as int) == Some(j as int) && i <= j <= n,
            None => scan_lit(s@, i as int, lit@, k as int) is None,
        }),
    decreases ln - k,
{
    if k >= ln {
        Some(i)
    } else if i < n {
        let c = s.get_char(i);
        let lc = lit.get_char(k);
        if c == lc {
            ex_lit(s, n, i + 1, lit, ln, k + 1)
        } else {
            None
        }
    } else {
        None
    }
}

/// The numeric value of a hexadecimal digit, or -1.
fn hex_val_exec(c: char) -> (r: i32)
    ensures
        r as int == hex_val(c),
{
    let u = c as u32;
    if 0x30 <= u && u <= 0x39 {
        (u - 0x30) as i32
    } else if 0x61 <= u && u <= 0x66 {
        (u - 87) as i32
    } else if 0x41 <= u && u <= 0x46 {
        (u - 55) as i32
    } else {
        -1
    }
}

/// The character a two-character escape stands for.
fn unesc_exec(e: char) -> (r: char)
    ensures
        r == unesc_char(e),
{
    if e == '"' {
        '"'
    } else if e == '\\' {
        '\\'
    } else if e == 'n' {
        '\n'
    } else if e == 'r' {
        '\r'
    } else if e == 't' {
        '\t'
    } else if e == 'b' {
        '\u{8}'
    } else {
        '\u{C}'
    }
}

/// `c` followed by `rest`.
fn cons_char(c: char, rest: String) -> (out: String)
    ensures
        out@ == seq![c] + rest@,
{
    let mut out = String::new();
    push_char(&mut out, c);
    out.append(rest.as_str());
    proof {
        assert(out@ =~= seq![c] + rest@);
    }
    out
}

/// Reads a JSON string body starting just past the opening quote.
fn ex_str_body(s: &str, n: usize, i: usize) -> (r: Option<(String, usize)>)
    requires
        n == s@.len(),
        i <= n,
    ensures
        (match r {
            Some(t) => scan_str_body(s@, i as int) matches Some(p) && p.0 == t.0@ && p.1 == t.1
                as int && i < t.1 <= n,
            None => scan_str_body(s@, i as int) is None,
        }),
    decreases n - i,
{
    if i >= n {
        return None;
    }
    let c = s.get_char(i);
    if c == '"' {
        Some((String::new(), i + 1))
    } else if c == '\\' {
        if i + 1 < n {
            let e = s.get_char(i + 1);
            if e == '"' || e == '\\' || e == 'n' || e == 'r' || e == 't' || e == 'b' || e == 'f' {
                let u = unesc_exec(e);
                match ex_str_body(s, n, i + 2) {
                    Some(t) => Some((cons_char(u, t.0), t.1)),
                    None => None,
                }
            } else if e == 'u' {
                if n - i > 5 {
                    let h0 = s.get_char(i + 2);
                    let h1 = s.get_char(i + 3);
                    let h2 = s.get_char(i + 4);
                    let h3 = s.get_char(i + 5);
                    if h0 == '0' && h1 == '0' {
                        let v2 = hex_val_exec(h2);
                        let v3 = hex_val_exec(h3);
                        if v2 >= 0 && v3 >= 0 {
                            let v: u32 = (v2 as u32) * 16 + (v3 as u32);
                            let ch = char_from_u32(v);
                            match ex_str_body(s, n, i + 6) {
                                Some(t) => Some((cons_char(ch, t.0), t.1)),
                                None => None,
                            }
                        } else {
                            None
                        }
                    } else {
                        None
                    }
                } else {
                    None
                }
            } else {
                None
            }
        } else {
            None
        }
    } else if (c as u32) < 0x20 {
        None
    } else {
        match ex_str_body(s, n, i + 1) {
            Some(t) => Some((cons_char(c, t.0), t.1)),
            None => None,
        }
    }
}

/// Reads a JSON string literal at `i`.
fn ex_string(s: &str, n: usize, i: usize) -> (r: Option<(String, usize)>)
    requires
        n == s@.len(),
        i <= n,
    ensures
        (match r {
            Some(t) => scan_string(s@, i as int) matches Some(p) && p.0 == t.0@ && p.1 == t.1
                as int && i < t.1 <= n,
            None => scan_string(s@, i as int) is None,
        }),
{
    if i < n {
        let c = s.get_char(i);
        if c == '"' {
            return ex_str_body(s, n, i + 1);
        }
    }
    None
}

/// Reads an index number: one digit, or two with no leading zero.
fn ex_number(s: &str, n: usize, i: usize) -> (r: Option<(usize, usize)>)
    requires
        n == s@.len(),
        i <= n,
    ensures
        (match r {
            Some(t) => scan_number(s@, i as int) == Some((t.0 as int, t.1 as int)) && i < t.1 <= n
                && t.0 <= 99,
            None => scan_number(s@, i as int) is None,
        }),
{
    if i >= n {
        return None;
    }
    let c = s.get_char(i);
    let u = c as u32;
    if !(0x30 <= u && u <= 0x39) {
        return None;
    }
    let d1: usize = (u - 0x30) as usize;
    if i + 1 < n {
        let c2 = s.get_char(i + 1);
        let u2 = c2 as u32;
        if 0x30 <= u2 && u2 <= 0x39 {
            if d1 == 0 {
                return None;
            }
            if n - i > 2 {
                let c3 = s.get_char(i + 2);
                let u3 = c3 as u32;
                if 0x30 <= u3 && u3 <= 0x39 {
                    return None;
                }
            }
            return Some((d1 * 10 + ((u2 - 0x30) as usize), i + 2));
        }
    }
    Some((d1, i + 1))
}

/// Reads the image value: `null` or a string literal.
fn ex_image(s: &str, n: usize, i: usize) -> (r: Option<(Option<String>, usize)>)
    requires
        n == s@.len(),
        i <= n,
    ensures
        (match r {
            Some(t) => scan_image_val(s@, i as int) matches Some(p) && p.0 == crate::card::opt_view(
                t.0,
            ) && p.1 == t.1 as int && i < t.1 <= n,
            None => scan_image_val(s@, i as int) is None,
        }),
{
    let mut is_null: bool = false;
    if i < n {
        let c = s.get_char(i);
        if c == 'n' {
            is_null = true;
        }
    }
    if is_null {
        let lit = "null";
        let ln = lit.unicode_len();
        match ex_lit(s, n, i, lit, ln, 0) {
            Some(j) => {
                proof {
                    reveal_strlit("null");
                    lemma_scan_lit(s@, i as int, "null"@, 0);
                }
                Some((None, j))
            },
            None => None,
        }
    } else {
        match ex_string(s, n, i) {
            Some(t) => Some((Some(t.0), t.1)),
            None => None,
        }
    }
}

/// Reads the rest of the answer array after one item.
fn ex_answers_rest(s: &str, n: usize, i: usize, acc: Vec<String>) -> (r: Option<
    (Vec<String>, usize),
>)
    requires
        n == s@.len(),
        i <= n,
    ensures
        (match r {
            Some(t) => scan_answers_rest(s@, i as int, seq_views(acc@)) matches Some(p) && p.0
                == seq_views(t.0@) && p.1 == t.1 as int && i < t.1 <= n,
            None => scan_answers_rest(s@, i as int, seq_views(acc@)) is None,
        }),
    decreases n - i,
{
    let k = ex_skip(s, n, i);
    if k < n {
        let c = s.get_char(k);
        if c == ',' {
            let k2 = ex_skip(s, n, k + 1);
            match ex_string(s, n, k2) {
                Some(t) => {
                    let mut acc2 = acc;
                    let ghost old_views = seq_views(acc2@);
                    acc2.push(t.0);
                    proof {
                        assert(seq_views(acc2@) =~= old_views.push(t.0@));
                    }
                    ex_answers_rest(s, n, t.1, acc2)
                },
                None => None,
            }
        } else if c == ']' {
            Some((acc, k + 1))
        } else {
            None
        }
    } else {
        None
    }
}

/// Reads the whole answer array at its opening bracket.
fn ex_answers(s: &str, n: usize, i: usize) -> (r: Option<(Vec<String>, usize)>)
    requires
        n == s@.len(),
        i <= n,
    ensures
        (match r {
            Some(t) => scan_answers(s@, i as int) matches Some(p) && p.0 == seq_views(t.0@) && p.1
                == t.1 as int && i < t.1 <= n,
            None => scan_answers(s@, i as int) is None,
        }),
{
    if i < n {
        let c = s.get_char(i);
        if c == '[' {
            let k = ex_skip(s, n, i + 1);
            if k < n {
                let c2 = s.get_char(k);
                if c2 == ']' {
                    let acc: Vec<String> = Vec::new();
                    proof {
                        assert(seq_views(acc@) =~= Seq::<Seq<char>>::empty());
                    }
                    return Some((acc, k + 1));
                }
            }
            match ex_string(s, n, k) {
                Some(t) => {
                    let mut acc: Vec<String> = Vec::new();
                    let ghost tv = t.0@;
                    acc.push(t.0);
                    proof {
                        assert(seq_views(acc@) =~= seq![tv]);
                    }
                    return ex_answers_rest(s, n, t.1, acc);
                },
                None => {
                    return None;
                },
            }
        }
    }
    None
}

/// Reads a key: blanks, the quoted name, blanks, a colon, blanks.
fn ex_key(s: &str, n: usize, i: usize, name: &str) -> (r: Option<usize>)
    requires
        n == s@.len(),
        i <= n,
    ensures
        (match r {
            Some(j) => scan_key(s@, i as int, name@) == Some(j as int) && i <= j <= n,
            None => scan_key(s@, i as int, name@) is None,
        }),
{
    let k = ex_skip(s, n, i);
    let ln = name.unicode_len();
    match ex_lit(s, n, k, name, ln, 0) {
        None => None,
        Some(j) => {
            let k2 = ex_skip(s, n, j);
            if k2 < n {
                let c = s.get_char(k2);
                if c == ':' {
                    return Some(ex_skip(s, n, k2 + 1));
                }
            }
            None
        },
    }
}

/// Reads a comma token surrounded by blanks.
fn ex_comma(s: &str, n: usize, i: usize) -> (r: Option<usize>)
    requires
        n == s@.len(),
        i <= n,
    ensures
        (match r {
            Some(j) => scan_comma(s@, i as int) == Some(j as int) && i < j <= n,
            None => scan_comma(s@, i as int) is None,
        }),
{
    let k = ex_skip(s, n, i);
    if k < n {
        let c = s.get_char(k);
        if c == ',' {
            return Some(k + 1);
        }
    }
    None
}

/// Reads one card object and checks it is well-formed.
fn ex_card(s: &str, n: usize, i: usize) -> (r: Option<(Flashcard, usize)>)
    requires
        n == s@.len(),
        i <= n,
    ensures
        (match r {
            Some(t) => scan_card(s@, i as int) matches Some(p) && p.0 == t.0@ && p.1 == t.1
                as int && i < t.1 <= n,
            None => scan_card(s@, i as int) is None,
        }),
{
    let k0 = ex_skip(s, n, i);
    if !(k0 < n) {
        return None;
    }
    let c0 = s.get_char(k0);
    if c0 != '{' {
        return None;
    }
    let p1 = match ex_key(s, n, k0 + 1, "\"question\"") {
        Some(p) => p,
        None => {
            return None;
        },
    };
    let q = match ex_string(s, n, p1) {
        Some(t) => t,
        None => {
            return None;
        },
    };
    let c1 = match ex_comma(s, n, q.1) {
        Some(p) => p,
        None => {
            return None;
        },
    };
    let p2 = match ex_key(s, n, c1, "\"answers\"") {
        Some(p) => p,
        None => {
            return None;
        },
    };
    let ans = match ex_answers(s, n, p2) {
        Some(t) => t,
        None => {
            return None;
        },
    };
    let c2 = match ex_comma(s, n, ans.1) {
        Some(p) => p,
        None => {
            return None;
        },
    };
    let p3 = match ex_key(s, n, c2, "\"correct_question\"") {
        Some(p) => p,
        None => {
            return None;
        },
    };
    let num = match ex_number(s, n, p3) {
        Some(t) => t,
        None => {
            return None;
        },
    };
    let c3 = match ex_comma(s, n, num.1) {
        Some(p) => p,
        None => {
            return None;
        },
    };
    let p4 = match ex_key(s, n, c3, "\"image\"") {
        Some(p) => p,
        None => {
            return None;
        },
    };
    let img = match ex_image(s, n, p4) {
        Some(t) => t,
        None => {
            return None;
        },
    };
    let k9 = ex_skip(s, n, img.1);
    if !(k9 < n) {
        return None;
    }
    let c9 = s.get_char(k9);
    if c9 != '}' {
        return None;
    }
    match Flashcard::new(q.0, ans.0, num.0, img.0) {
        Some(card) => Some((card, k9 + 1)),
        None => None,
    }
}

/// Reads the rest of the card list after one card.
fn ex_cards_rest(s: &str, n: usize, i: usize, acc: Vec<Flashcard>) -> (r: Option<
    (Vec<Flashcard>, usize),
>)
    requires
        n == s@.len(),
        i <= n,
    ensures
        (match r {
            Some(t) => scan_cards_rest(s@, i as int, crate::card::models(acc@)) matches Some(p)
                && p.0 == crate::card::models(t.0@) && p.1 == t.1 as int && i < t.1 <= n,
            None => scan_cards_rest(s@, i as int, crate::card::models(acc@)) is None,
        }),
    decreases n - i,
{
    let k = ex_skip(s, n, i);
    if k < n {
        let c = s.get_char(k);
        if c == ',' {
            match ex_card(s, n, k + 1) {
                Some(t) => {
                    let mut acc2 = acc;
                    let ghost old_models = crate::card::models(acc2@);
                    let ghost cm = t.0@;
                    acc2.push(t.0);
                    proof {
                        assert(crate::card::models(acc2@) =~= old_models.push(cm));
                    }
                    ex_cards_rest(s, n, t.1, acc2)
                },
                None => None,
            }
        } else if c == ']' {
            Some((acc, k + 1))
        } else {
            None
        }
    } else {
        None
    }
}

/// Reads a whole stored document. Succeeds exactly when `spec_parse`
/// reads the same models out of the text.
pub fn parse_cards(s: &str) -> (r: Option<Vec<Flashcard>>)
    ensures
        (match r {
            Some(cs) => spec_parse(s@) == Some(crate::card::models(cs@)),
            None => spec_parse(s@) is None,
        }),
{
    let n = s.unicode_len();
    let k = ex_skip(s, n, 0);
    if !(k < n) {
        return None;
    }
    let c = s.get_char(k);
    if c != '[' {
        return None;
    }
    let k1 = ex_skip(s, n, k + 1);
    if k1 < n {
        let c1 = s.get_char(k1);
        if c1 == ']' {
            let k2 = ex_skip(s, n, k1 + 1);
            if k2 == n {
                let empty: Vec<Flashcard> = Vec::new();
                proof {
                    assert(crate::card::models(empty@) =~= Seq::<CardModel>::empty());
                }
                return Some(empty);
            } else {
                return None;
            }
        }
    }
    let first = match ex_card(s, n, k1) {
        Some(t) => t,
        None => {
            return None;
        },
    };
    let mut acc: Vec<Flashcard> = Vec::new();
    let ghost cm = first.0@;
    acc.push(first.0);
    proof {
        assert(crate::card::models(acc@) =~= seq![cm]);
    }
    let rest = match ex_cards_rest(s, n, first.1, acc) {
        Some(t) => t,
        None => {
            return None;
        },
    };
    let k3 = ex_skip(s, n, rest.1);
    if k3 == n {
        Some(rest.0)
    } else {
        None
    }
}

/// `t` stands in `s` at position `i`.
pub open spec fn at_pos(s: Seq<char>, i: int, t: Seq<char>) -> bool {
    &&& 0 <= i
    &&& i + t.len() <= s.len()
    &&& s.subrange(i, i + t.len()) == t
}

/// Every character of `g` is a blank.
pub open spec fn all_gaps(g: Seq<char>) -> bool {
    forall|j: int| 0 <= j < g.len() ==> is_gap_char(g[j])
}

proof fn lemma_at_index(s: Seq<char>, i: int, t: Seq<char>)
    requires
        at_pos(s, i, t),
    ensures
        forall|j: int| 0 <= j < t.len() ==> s[i + j] == #[trigger] t[j],
{
    assert forall|j: int| 0 <= j < t.len() implies s[i + j] == #[trigger] t[j] by {
        assert(s.subrange(i, i + t.len() as int)[j] == t[j]);
    }
}

proof fn lemma_at_split(s: Seq<char>, i: int, a: Seq<char>, b: Seq<char>)
    requires
        at_pos(s, i, a + b),
    ensures
        at_pos(s, i, a),
        at_pos(s, i + a.len(), b),
{
    lemma_at_index(s, i, a + b);
    assert forall|j: int| 0 <= j < a.len() implies s.subrange(i, i + a.len() as int)[j] == a[j] by {
        assert(s[i + j] == (a + b)[j]);
    }
    assert(s.subrange(i, i + a.len() as int) =~= a);
    assert forall|j: int|
        0 <= j < b.len() implies s.subrange(i + a.len(), i + a.len() + b.len() as int)[j] == b[
        j] by {
        assert(s[i + (a.len() + j)] == (a + b)[a.len() + j]);
        assert((a + b)[a.len() + j] == b[j]);
    }
    assert(s.subrange(i + a.len(), i + a.len() + b.len() as int) =~= b);
}

proof fn lemma_skip_gaps_over(s: Seq<char>, i: int, g: Seq<char>)
    requires
        at_pos(s, i, g),
        all_gaps(g),
        i + g.len() == s.len() || !is_gap_char(s[i + g.len()]),
    ensures
        skip_gaps(s, i) == i + g.len(),
    decreases g.len(),
{
    lemma_at_index(s, i, g);
    if g.len() == 0 {
    } else {
        assert(s[i + 0] == g[0]);
        assert(s[i] == g[0]);
        assert(g =~= seq![g[0]] + g.drop_first());
        lemma_at_split(s, i, seq![g[0]], g.drop_first());
        lemma_skip_gaps_over(s, i + 1, g.drop_first());
    }
}

proof fn lemma_scan_lit_at(s: Seq<char>, i: int, lit: Seq<char>, k: int)
    requires
        0 <= k <= lit.len(),
        at_pos(s, i, lit.subrange(k, lit.len() as int)),
    ensures
        scan_lit(s, i, lit, k) == Some(i + lit.len() - k),
    decreases lit.len() - k,
{
    lemma_at_index(s, i, lit.subrange(k, lit.len() as int));
    if k < lit.len() {
        assert(s[i + 0] == lit.subrange(k, lit.len() as int)[0]);
        assert(s[i] == lit[k]);
        assert(lit.subrange(k + 1, lit.len() as int) =~= lit.subrange(k, lit.len() as int).drop_first());
        assert(lit.subrange(k, lit.len() as int) =~= seq![lit[k]] + lit.subrange(k + 1, lit.len() as int));
        lemma_at_split(s, i, seq![lit[k]], lit.subrange(k + 1, lit.len() as int));
        lemma_scan_lit_at(s, i + 1, lit, k + 1);
    }
}

proof fn lemma_char_roundtrip(c: char)
    ensures
        ((c as u32) as char) == c,
{
}

proof fn lemma_scan_str_body_at(s: Seq<char>, i: int, t: Seq<char>)
    requires
        at_pos(s, i, esc_string(t) + seq!['"']),
    ensures
        scan_str_body(s, i) == Some((t, i + esc_string(t).len() + 1)),
    decreases t.len(),
{
    if t.len() == 0 {
        assert(esc_string(t) == Seq::<char>::empty());
        assert(esc_string(t) + seq!['"'] =~= seq!['"']);
        lemma_at_index(s, i, seq!['"']);
        assert(s[i + 0] == seq!['"'][0]);
        assert(s[i] == '"');
        assert(scan_str_body(s, i) == Some((Seq::<char>::empty(), i + 1)));
        assert(t =~= Seq::<char>::empty());
    } else {
        let c = t[0];
        let t1 = t.drop_first();
        assert(esc_string(t) == esc_char(c) + esc_string(t1));
        assert(esc_string(t) + seq!['"'] =~= esc_char(c) + (esc_string(t1) + seq!['"']));
        lemma_at_split(s, i, esc_char(c), esc_string(t1) + seq!['"']);
        let i2 = i + esc_char(c).len();
        lemma_scan_str_body_at(s, i2, t1);
        lemma_at_index(s, i, esc_char(c));
        assert forall|j: int| 0 <= j < esc_char(c).len() implies s[i + j] == esc_char(c)[j] by {
            assert(s[i + j] == esc_char(c)[j]);
        }
        assert(seq![c] + t1 =~= t);
        let u = c as u32;
        if c == '"' || c == '\\' || c == '\u{8}' || c == '\u{9}' || c == '\u{A}' || c == '\u{C}'
            || c == '\u{D}' {
            assert(esc_char(c).len() == 2);
            assert(s[i + 0] == esc_char(c)[0] && s[i + 1] == esc_char(c)[1]);
            assert(s[i] == '\\');
            assert(scan_str_body(s, i) == Some((t, i2 + esc_string(t1).len() + 1)));
        } else if u < 0x20 {
            assert(esc_char(c).len() == 6);
            assert(s[i + 0] == esc_char(c)[0] && s[i + 1] == esc_char(c)[1] && s[i + 2]
                == esc_char(c)[2] && s[i + 3] == esc_char(c)[3] && s[i + 4] == esc_char(c)[4] && s[i
                + 5] == esc_char(c)[5]);
            assert(s[i] == '\\' && s[i + 1] == 'u' && s[i + 2] == '0' && s[i + 3] == '0');
            assert(s[i + 4] == hexdig(u as int / 16) && s[i + 5] == hexdig(u as int % 16));
            assert(hex_val(hexdig(u as int / 16)) == u as int / 16);
            assert(hex_val(hexdig(u as int % 16)) == u as int % 16);
            let v = hex_val(s[i + 4]) * 16 + hex_val(s[i + 5]);
            assert(v == u as int);
            assert(v as u32 == u);
            lemma_char_roundtrip(c);
            assert(v as u32 == c as u32);
            assert(((v as u32) as char) == c);
            assert(scan_str_body(s, i) == Some((t, i2 + esc_string(t1).len() + 1)));
        } else {
            assert(esc_char(c) =~= seq![c]);
            assert(s[i + 0] == esc_char(c)[0]);
            assert(s[i] == c);
            assert(s[i] != '"' && s[i] != '\\' && (s[i] as u32) >= 0x20);
            assert(scan_str_body(s, i) == Some((t, i2 + esc_string(t1).len() + 1)));
        }
    }
}

proof fn lemma_scan_string_at(s: Seq<char>, i: int, t: Seq<char>)
    requires
        at_pos(s, i, quoted(t)),
    ensures
        scan_string(s, i) == Some((t, i + quoted(t).len())),
{
    assert(quoted(t) =~= seq!['"'] + (esc_string(t) + seq!['"']));
    lemma_at_split(s, i, seq!['"'], esc_string(t) + seq!['"']);
    lemma_at_index(s, i, seq!['"']);
    assert(s[i + 0] == seq!['"'][0]);
    assert(s[i] == '"');
    lemma_scan_str_body_at(s, i + 1, t);
}

proof fn lemma_scan_number_digit(s: Seq<char>, i: int, n: int)
    requires
        0 <= n <= 9,
        at_pos(s, i, dec_rep(n as nat)),
        i + 1 < s.len(),
        !is_digit(s[i + 1]),
    ensures
        scan_number(s, i) == Some((n, i + 1)),
{
    assert(dec_rep(n as nat) == seq![hexdig(n)]);
    lemma_at_index(s, i, dec_rep(n as nat));
    assert(s[i + 0] == dec_rep(n as nat)[0]);
    assert(s[i] == hexdig(n));
    assert((hexdig(n) as u32) == 0x30 + n);
    assert(is_digit(s[i]) && digit_val(s[i]) == n);
}

proof fn lemma_scan_image_at(s: Seq<char>, i: int, img: Option<Seq<char>>)
    requires
        at_pos(s, i, enc_image(img)),
    ensures
        scan_image_val(s, i) == Some((img, i + enc_image(img).len())),
{
    match img {
        None => {
            reveal_strlit("null");
            lemma_at_index(s, i, "null"@);
            assert(s[i + 0] == "null"@[0]);
            assert(s[i] == 'n');
            assert("null"@.subrange(0, 4) =~= "null"@);
            lemma_scan_lit_at(s, i, "null"@, 0);
        },
        Some(t) => {
            lemma_at_index(s, i, quoted(t));
            assert(s[i + 0] == quoted(t)[0]);
            assert(quoted(t)[0] == '"');
            assert(s[i] == '"');
            lemma_scan_string_at(s, i, t);
        },
    }
}


/// The answer-array segment of a card: brackets around the items.
spec fn answers_text(ans: Seq<Seq<char>>) -> Seq<char> {
    "[\n"@ + enc_answer_items(ans) + "\n    ]"@
}

/// What follows one answer item: the next items and the closing
/// bracket, or the closing bracket alone.
spec fn after_answers(tail: Seq<Seq<char>>) -> Seq<char> {
    if tail.len() == 0 {
        "\n    ]"@
    } else {
        ",\n"@ + enc_answer_items(tail) + "\n    ]"@
    }
}

/// A card object from its opening brace on; `enc_card` is this after
/// two spaces of indentation.
spec fn enc_card_inner(m: CardModel) -> Seq<char> {
    seq!['{'] + "\n    "@ + "\"question\""@ + ": "@ + quoted(m.question) + seq![','] + "\n    "@
        + "\"answers\""@ + ": "@ + answers_text(m.answers) + seq![','] + "\n    "@
        + "\"correct_question\""@ + ": "@ + dec_rep(m.correct_index as nat) + seq![','] + "\n    "@
        + "\"image\""@ + ": "@ + enc_image(m.image) + "\n  }"@
}

/// What follows one card object: the next cards and the closing
/// bracket, or the closing bracket alone.
spec fn after_cards(tail: Seq<CardModel>) -> Seq<char> {
    if tail.len() == 0 {
        "\n]"@
    } else {
        ",\n"@ + enc_card_items(tail) + "\n]"@
    }
}

proof fn lemma_gap_literals()
    ensures
        all_gaps("\n"@),
        all_gaps("\n  "@),
        all_gaps("\n    "@),
        all_gaps("\n      "@),
        "\n"@.len() == 1,
        "\n  "@.len() == 3,
        "\n    "@.len() == 5,
        "\n      "@.len() == 7,
{
    reveal_strlit("\n");
    reveal_strlit("\n  ");
    reveal_strlit("\n    ");
    reveal_strlit("\n      ");
    assert("\n"@[0] == '\n');
    assert("\n  "@[0] == '\n' && "\n  "@[1] == ' ' && "\n  "@[2] == ' ');
    assert("\n    "@[0] == '\n' && "\n    "@[1] == ' ' && "\n    "@[2] == ' ' && "\n    "@[3]
        == ' ' && "\n    "@[4] == ' ');
    assert("\n      "@[0] == '\n' && "\n      "@[1] == ' ' && "\n      "@[2] == ' '
        && "\n      "@[3] == ' ' && "\n      "@[4] == ' ' && "\n      "@[5] == ' '
        && "\n      "@[6] == ' ');
}

proof fn lemma_enc_card_split(m: CardModel)
    ensures
        enc_card(m) == "  "@ + enc_card_inner(m),
{
    reveal_strlit("  {\n    \"question\": ");
    reveal_strlit(",\n    \"answers\": [\n");
    reveal_strlit("\n    ],\n    \"correct_question\": ");
    reveal_strlit(",\n    \"image\": ");
    reveal_strlit("\n  }");
    reveal_strlit("  ");
    reveal_strlit("\n    ");
    reveal_strlit("\"question\"");
    reveal_strlit("\"answers\"");
    reveal_strlit("\"correct_question\"");
    reveal_strlit("\"image\"");
    reveal_strlit(": ");
    reveal_strlit("[\n");
    reveal_strlit("\n    ]");
    assert("  {\n    \"question\": "@ =~= "  "@ + (seq!['{'] + "\n    "@ + "\"question\""@
        + ": "@));
    assert(",\n    \"answers\": [\n"@ =~= seq![','] + "\n    "@ + "\"answers\""@ + ": "@
        + "[\n"@);
    assert("\n    ],\n    \"correct_question\": "@ =~= "\n    ]"@ + (seq![','] + "\n    "@
        + "\"correct_question\""@ + ": "@));
    assert(",\n    \"image\": "@ =~= seq![','] + "\n    "@ + "\"image\""@ + ": "@);
    assert(enc_card(m) =~= "  "@ + enc_card_inner(m));
}

proof fn lemma_scan_key_at(s: Seq<char>, i: int, name: Seq<char>)
    requires
        at_pos(s, i, "\n    "@ + name + ": "@),
        name.len() > 0,
        !is_gap_char(name[0]),
        i + 7 + name.len() < s.len(),
        !is_gap_char(s[i + 7 + name.len()]),
    ensures
        scan_key(s, i, name) == Some(i + 7 + name.len()),
{
    reveal_strlit("\n    ");
    reveal_strlit(": ");
    lemma_gap_literals();
    assert(("\n    "@ + name + ": "@) =~= "\n    "@ + (name + ": "@));
    assert(at_pos(s, i, "\n    "@ + (name + ": "@)));
    lemma_at_split(s, i, "\n    "@, name + ": "@);
    lemma_at_split(s, i + 5, name, ": "@);
    lemma_at_index(s, i + 5, name);
    assert(s[i + 5 + 0] == name[0]);
    lemma_skip_gaps_over(s, i, "\n    "@);
    assert(skip_gaps(s, i) == i + 5);
    assert(name.subrange(0, name.len() as int) =~= name);
    lemma_scan_lit_at(s, i + 5, name, 0);
    let j = i + 5 + name.len();
    lemma_at_index(s, j, ": "@);
    assert(s[j + 0] == ": "@[0] && s[j + 1] == ": "@[1]);
    assert(s[j] == ':' && s[j + 1] == ' ');
    assert(skip_gaps(s, j) == j);
    assert(": "@ =~= seq![':'] + seq![' ']);
    lemma_at_split(s, j, seq![':'], seq![' ']);
    lemma_skip_gaps_over(s, j + 1, seq![' ']);
    assert(skip_gaps(s, j + 1) == j + 2);
}

proof fn lemma_scan_answers_rest_at(s: Seq<char>, i: int, acc: Seq<Seq<char>>, tail: Seq<
    Seq<char>,
>)
    requires
        at_pos(s, i, after_answers(tail)),
    ensures
        scan_answers_rest(s, i, acc) == Some((acc + tail, i + after_answers(tail).len())),
    decreases tail.len(),
{
    lemma_gap_literals();
    reveal_strlit("\n    ]");
    reveal_strlit(",\n");
    reveal_strlit("      ");
    reveal_strlit("\n    ");
    reveal_strlit("\n      ");
    if tail.len() == 0 {
        assert("\n    ]"@ =~= "\n    "@ + seq![']']);
        lemma_at_split(s, i, "\n    "@, seq![']']);
        lemma_at_index(s, i + 5, seq![']']);
        assert(s[i + 5 + 0] == seq![']'][0]);
        assert(s[i + 5] == ']');
        lemma_skip_gaps_over(s, i, "\n    "@);
        assert(skip_gaps(s, i) == i + 5);
        assert(acc + tail =~= acc);
        assert(scan_answers_rest(s, i, acc) == Some((acc, i + 6)));
    } else {
        let t0 = tail[0];
        let tail1 = tail.drop_first();
        assert(enc_answer_items(tail) == if tail.len() == 1 {
            "      "@ + quoted(tail[0])
        } else {
            "      "@ + quoted(tail[0]) + ",\n"@ + enc_answer_items(tail1)
        });
        assert(after_answers(tail) =~= seq![','] + ("\n      "@ + (quoted(t0) + after_answers(
            tail1,
        )))) by {
            assert(",\n"@ =~= seq![','] + seq!['\n']);
            assert("\n      "@ =~= seq!['\n'] + "      "@);
        }
        lemma_at_split(s, i, seq![','], "\n      "@ + (quoted(t0) + after_answers(tail1)));
        lemma_at_index(s, i, seq![',']);
        assert(s[i + 0] == seq![','][0]);
        assert(s[i] == ',');
        assert(skip_gaps(s, i) == i);
        lemma_at_split(s, i + 1, "\n      "@, quoted(t0) + after_answers(tail1));
        let k2 = i + 8;
        lemma_at_split(s, k2, quoted(t0), after_answers(tail1));
        lemma_at_index(s, k2, quoted(t0));
        assert(s[k2 + 0] == quoted(t0)[0]);
        assert(quoted(t0)[0] == '"');
        lemma_skip_gaps_over(s, i + 1, "\n      "@);
        assert(skip_gaps(s, i + 1) == k2);
        lemma_scan_string_at(s, k2, t0);
        let j = k2 + quoted(t0).len();
        lemma_scan_answers_rest_at(s, j, acc.push(t0), tail1);
        assert(acc.push(t0) + tail1 =~= acc + tail);
        assert(scan_answers_rest(s, i, acc) == scan_answers_rest(s, j, acc.push(t0)));
    }
}

proof fn lemma_scan_answers_at(s: Seq<char>, i: int, ans: Seq<Seq<char>>)
    requires
        at_pos(s, i, answers_text(ans)),
        ans.len() >= 1,
    ensures
        scan_answers(s, i) == Some((ans, i + answers_text(ans).len())),
{
    lemma_gap_literals();
    reveal_strlit("[\n");
    reveal_strlit(",\n");
    reveal_strlit("      ");
    reveal_strlit("\n    ]");
    reveal_strlit("\n      ");
    let a0 = ans[0];
    let tail = ans.drop_first();
    assert(enc_answer_items(ans) == if ans.len() == 1 {
        "      "@ + quoted(ans[0])
    } else {
        "      "@ + quoted(ans[0]) + ",\n"@ + enc_answer_items(tail)
    });
    assert(answers_text(ans) =~= seq!['['] + ("\n      "@ + (quoted(a0) + after_answers(
        tail,
    )))) by {
        assert("[\n"@ =~= seq!['['] + seq!['\n']);
        assert("\n      "@ =~= seq!['\n'] + "      "@);
    }
    lemma_at_split(s, i, seq!['['], "\n      "@ + (quoted(a0) + after_answers(tail)));
    lemma_at_index(s, i, seq!['[']);
    assert(s[i + 0] == seq!['['][0]);
    assert(s[i] == '[');
    lemma_at_split(s, i + 1, "\n      "@, quoted(a0) + after_answers(tail));
    let k = i + 8;
    lemma_at_split(s, k, quoted(a0), after_answers(tail));
    lemma_at_index(s, k, quoted(a0));
    assert(s[k + 0] == quoted(a0)[0]);
    assert(quoted(a0)[0] == '"');
    lemma_skip_gaps_over(s, i + 1, "\n      "@);
    assert(skip_gaps(s, i + 1) == k);
    lemma_scan_string_at(s, k, a0);
    let j = k + quoted(a0).len();
    lemma_scan_answers_rest_at(s, j, seq![a0], tail);
    assert(seq![a0] + tail =~= ans);
}

#[verifier::rlimit(100)]
#[verifier::spinoff_prover]
proof fn lemma_scan_card_at(s: Seq<char>, i: int, g: Seq<char>, m: CardModel)
    requires
        at_pos(s, i, g + enc_card_inner(m)),
        all_gaps(g),
        m.wf(),
    ensures
        scan_card(s, i) == Some((m, i + g.len() + enc_card_inner(m).len())),
{
    lemma_gap_literals();
    reveal_strlit("\n    ");
    reveal_strlit(": ");
    reveal_strlit("\"question\"");
    reveal_strlit("\"answers\"");
    reveal_strlit("\"correct_question\"");
    reveal_strlit("\"image\"");
    reveal_strlit("\n  }");
    reveal_strlit("\n  ");
    reveal_strlit("[\n");
    reveal_strlit("null");
    let inner = enc_card_inner(m);
    lemma_at_split(s, i, g, inner);
    let k0 = i + g.len();
    let key_q = "\n    "@ + "\"question\""@ + ": "@;
    let key_a = "\n    "@ + "\"answers\""@ + ": "@;
    let key_c = "\n    "@ + "\"correct_question\""@ + ": "@;
    let key_i = "\n    "@ + "\"image\""@ + ": "@;
    let dec = dec_rep(m.correct_index as nat);
    assert(0 <= m.correct_index < 10);
    assert(dec == seq![hexdig(m.correct_index)]);
    let vq = quoted(m.question);
    let va = answers_text(m.answers);
    let vi = enc_image(m.image);
    let r12 = vi + "\n  }"@;
    let r11 = key_i + r12;
    let r10 = seq![','] + r11;
    let r9 = dec + r10;
    let r8 = key_c + r9;
    let r7 = seq![','] + r8;
    let r6 = va + r7;
    let r5 = key_a + r6;
    let r4 = seq![','] + r5;
    let r3 = vq + r4;
    let r2 = key_q + r3;
    let r1 = seq!['{'] + r2;
    assert(inner =~= r1);
    assert(at_pos(s, k0, r1));
    lemma_at_split(s, k0, seq!['{'], r2);
    lemma_at_index(s, k0, seq!['{']);
    assert(s[k0 + 0] == seq!['{'][0]);
    assert(s[k0] == '{');
    lemma_skip_gaps_over(s, i, g);
    assert(skip_gaps(s, i) == k0);
    // "question" key, then its string value
    lemma_at_split(s, k0 + 1, key_q, r3);
    let p1 = k0 + 18;
    assert(p1 == k0 + 1 + key_q.len());
    lemma_at_split(s, p1, vq, r4);
    lemma_at_index(s, p1, vq);
    assert(s[p1 + 0] == vq[0]);
    assert(vq[0] == '"');
    assert(!is_gap_char('"')) by {
        assert(('"' as u32) == 34);
    }
    lemma_scan_key_at(s, k0 + 1, "\"question\""@);
    assert(scan_key(s, k0 + 1, "\"question\""@) == Some(p1));
    lemma_scan_string_at(s, p1, m.question);
    let e1 = p1 + vq.len();
    // comma
    lemma_at_split(s, e1, seq![','], r5);
    lemma_at_index(s, e1, seq![',']);
    assert(s[e1 + 0] == seq![','][0]);
    assert(s[e1] == ',');
    assert(skip_gaps(s, e1) == e1);
    assert(scan_comma(s, e1) == Some(e1 + 1));
    // "answers" key, then the array value
    lemma_at_split(s, e1 + 1, key_a, r6);
    let p2 = e1 + 17;
    assert(p2 == e1 + 1 + key_a.len());
    lemma_at_split(s, p2, va, r7);
    lemma_at_index(s, p2, va);
    assert(s[p2 + 0] == va[0]);
    assert(va[0] == '[');
    lemma_scan_key_at(s, e1 + 1, "\"answers\""@);
    assert(scan_key(s, e1 + 1, "\"answers\""@) == Some(p2));
    assert(m.answers.len() >= 1);
    lemma_scan_answers_at(s, p2, m.answers);
    let e2 = p2 + va.len();
    // comma
    lemma_at_split(s, e2, seq![','], r8);
    lemma_at_index(s, e2, seq![',']);
    assert(s[e2 + 0] == seq![','][0]);
    assert(s[e2] == ',');
    assert(skip_gaps(s, e2) == e2);
    assert(scan_comma(s, e2) == Some(e2 + 1));
    // "correct_question" key, then the single digit
    lemma_at_split(s, e2 + 1, key_c, r9);
    let p3 = e2 + 26;
    assert(p3 == e2 + 1 + key_c.len());
    lemma_at_split(s, p3, dec, r10);
    lemma_at_index(s, p3, dec);
    assert(s[p3 + 0] == dec[0]);
    assert(dec[0] == hexdig(m.correct_index));
    assert((hexdig(m.correct_index) as u32) == 0x30 + m.correct_index);
    assert(!is_gap_char(s[p3]));
    lemma_scan_key_at(s, e2 + 1, "\"correct_question\""@);
    assert(scan_key(s, e2 + 1, "\"correct_question\""@) == Some(p3));
    lemma_at_split(s, p3 + 1, seq![','], r11);
    lemma_at_index(s, p3 + 1, seq![',']);
    assert(s[p3 + 1 + 0] == seq![','][0]);
    assert(s[p3 + 1] == ',');
    assert(!is_digit(s[p3 + 1])) by {
        assert((',' as u32) == 44);
    }
    lemma_scan_number_digit(s, p3, m.correct_index);
    let e3 = p3 + 1;
    assert(skip_gaps(s, e3) == e3);
    assert(scan_comma(s, e3) == Some(e3 + 1));
    // "image" key, then the image value
    lemma_at_split(s, e3 + 1, key_i, r12);
    let p4 = e3 + 15;
    assert(p4 == e3 + 1 + key_i.len());
    lemma_at_split(s, p4, vi, "\n  }"@);
    lemma_at_index(s, p4, vi);
    assert(vi.len() > 0);
    assert(s[p4 + 0] == vi[0]);
    assert(!is_gap_char(vi[0])) by {
        match m.image {
            None => {
                assert(vi[0] == 'n');
            },
            Some(tim) => {
                assert(vi[0] == '"');
                assert(('"' as u32) == 34);
            },
        }
    }
    lemma_scan_key_at(s, e3 + 1, "\"image\""@);
    assert(scan_key(s, e3 + 1, "\"image\""@) == Some(p4));
    lemma_scan_image_at(s, p4, m.image);
    let e4 = p4 + vi.len();
    // the closing "\n  }"
    assert("\n  }"@ =~= "\n  "@ + seq!['}']);
    assert(at_pos(s, e4, "\n  "@ + seq!['}']));
    lemma_at_split(s, e4, "\n  "@, seq!['}']);
    lemma_at_index(s, e4 + 3, seq!['}']);
    assert(s[e4 + 3 + 0] == seq!['}'][0]);
    assert(s[e4 + 3] == '}');
    lemma_skip_gaps_over(s, e4, "\n  "@);
    let k9 = e4 + 3;
    assert(skip_gaps(s, e4) == k9);
    assert((CardModel {
        question: m.question,
        answers: m.answers,
        correct_index: m.correct_index,
        image: m.image,
    }) == m);
    assert(k9 + 1 == i + g.len() + inner.len());
    assert(scan_card(s, i) == Some((m, i + g.len() + inner.len())));
}


#[verifier::rlimit(100)]
#[verifier::spinoff_prover]
proof fn lemma_scan_cards_rest_at(s: Seq<char>, i: int, acc: Seq<CardModel>, tail: Seq<CardModel>)
    requires
        at_pos(s, i, after_cards(tail)),
        crate::card::models_wf(tail),
    ensures
        scan_cards_rest(s, i, acc) == Some((acc + tail, i + after_cards(tail).len())),
    decreases tail.len(),
{
    lemma_gap_literals();
    reveal_strlit("\n]");
    reveal_strlit(",\n");
    reveal_strlit("\n");
    reveal_strlit("\n  ");
    reveal_strlit("  ");
    if tail.len() == 0 {
        assert("\n]"@ =~= "\n"@ + seq![']']);
        assert(at_pos(s, i, "\n"@ + seq![']']));
        lemma_at_split(s, i, "\n"@, seq![']']);
        lemma_at_index(s, i + 1, seq![']']);
        assert(s[i + 1 + 0] == seq![']'][0]);
        assert(s[i + 1] == ']');
        lemma_skip_gaps_over(s, i, "\n"@);
        assert(skip_gaps(s, i) == i + 1);
        assert(acc + tail =~= acc);
        assert(scan_cards_rest(s, i, acc) == Some((acc, i + 2)));
    } else {
        let m0 = tail[0];
        let tail1 = tail.drop_first();
        assert(m0.wf()) by {
            assert(tail[0].wf());
        }
        assert(crate::card::models_wf(tail1)) by {
            assert(forall|j: int| 0 <= j < tail1.len() ==> (#[trigger] tail1[j]) == tail[j + 1]);
        }
        assert(enc_card_items(tail) == if tail.len() == 1 {
            enc_card(tail[0])
        } else {
            enc_card(tail[0]) + ",\n"@ + enc_card_items(tail1)
        });
        lemma_enc_card_split(m0);
        assert(after_cards(tail) =~= seq![','] + (("\n  "@ + enc_card_inner(m0)) + after_cards(
            tail1,
        ))) by {
            assert(",\n"@ =~= seq![','] + seq!['\n']);
            assert("\n  "@ =~= seq!['\n'] + "  "@);
        }
        lemma_at_split(s, i, seq![','], ("\n  "@ + enc_card_inner(m0)) + after_cards(tail1));
        lemma_at_index(s, i, seq![',']);
        assert(s[i + 0] == seq![','][0]);
        assert(s[i] == ',');
        assert(skip_gaps(s, i) == i);
        lemma_at_split(s, i + 1, "\n  "@ + enc_card_inner(m0), after_cards(tail1));
        assert(all_gaps("\n  "@));
        lemma_scan_card_at(s, i + 1, "\n  "@, m0);
        let j = i + 1 + 3 + enc_card_inner(m0).len();
        assert(scan_card(s, i + 1) == Some((m0, j)));
        lemma_scan_cards_rest_at(s, j, acc.push(m0), tail1);
        assert(acc.push(m0) + tail1 =~= acc + tail);
        assert(scan_cards_rest(s, i, acc) == scan_cards_rest(s, j, acc.push(m0)));
    }
}

/// The round trip of the store: a document written by the encoder
/// always reads back as exactly the cards that were written, in their
/// order.
#[verifier::rlimit(100)]
#[verifier::spinoff_prover]
proof fn lemma_encode_decompose(ms: Seq<CardModel>)
    requires
        ms.len() > 0,
    ensures
        ({
            let s = spec_encode_cards(ms);
            let inner = enc_card_inner(ms[0]);
            &&& s.len() == 4 + inner.len() + after_cards(ms.drop_first()).len()
            &&& s[0] == '['
            &&& at_pos(s, 1, "\n  "@)
            &&& at_pos(s, 4, inner)
            &&& at_pos(s, 4 + inner.len() as int, after_cards(ms.drop_first()))
        }),
{
    reveal_strlit("[\n");
    reveal_strlit(",\n");
    reveal_strlit("\n]");
    reveal_strlit("\n  ");
    reveal_strlit("  ");
    let s = spec_encode_cards(ms);
    let m0 = ms[0];
    let tail = ms.drop_first();
    assert(enc_card_items(ms) == if ms.len() == 1 {
        enc_card(ms[0])
    } else {
        enc_card(ms[0]) + ",\n"@ + enc_card_items(tail)
    });
    lemma_enc_card_split(m0);
    assert(s =~= seq!['['] + (("\n  "@ + enc_card_inner(m0)) + after_cards(tail))) by {
        assert("[\n"@ =~= seq!['['] + seq!['\n']);
        assert("\n  "@ =~= seq!['\n'] + "  "@);
    }
    assert(at_pos(s, 0, seq!['['] + (("\n  "@ + enc_card_inner(m0)) + after_cards(tail)))) by {
        assert(s.subrange(0, s.len() as int) =~= s);
    }
    lemma_at_split(s, 0, seq!['['], ("\n  "@ + enc_card_inner(m0)) + after_cards(tail));
    lemma_at_index(s, 0, seq!['[']);
    assert(s[0int] == seq!['['][0]);
    lemma_at_split(s, 1, "\n  "@ + enc_card_inner(m0), after_cards(tail));
    lemma_at_split(s, 1, "\n  "@, enc_card_inner(m0));
}

/// The round trip of the store: a document written by the encoder
/// always reads back as exactly the cards that were written, in their
/// order.
#[verifier::rlimit(100)]
#[verifier::spinoff_prover]
pub proof fn lemma_parse_of_encode(ms: Seq<CardModel>)
    requires
        crate::card::models_wf(ms),
    ensures
        spec_parse(spec_encode_cards(ms)) == Some(ms),
{
    lemma_gap_literals();
    let s = spec_encode_cards(ms);
    if ms.len() == 0 {
        reveal_strlit("[]");
        assert(s == "[]"@);
        assert(s.len() == 2 && s[0] == '[' && s[1] == ']');
        assert(skip_gaps(s, 0) == 0);
        assert(skip_gaps(s, 1) == 1);
        assert(skip_gaps(s, 2) == 2);
        assert(spec_parse(s) == Some(Seq::<CardModel>::empty()));
        assert(ms =~= Seq::<CardModel>::empty());
    } else {
        let m0 = ms[0];
        let tail = ms.drop_first();
        assert(m0.wf()) by {
            assert(ms[0].wf());
        }
        assert(crate::card::models_wf(tail)) by {
            assert(forall|j: int| 0 <= j < tail.len() ==> (#[trigger] tail[j]) == ms[j + 1]);
        }
        lemma_encode_decompose(ms);
        let inner = enc_card_inner(m0);
        assert(s[0] == '[');
        assert(!is_gap_char('[')) by {
            assert(('[' as u32) == 91);
        }
        assert(skip_gaps(s, 0) == 0);
        lemma_at_index(s, 4, inner);
        assert(s[4int] == inner[0]);
        assert(inner[0] == '{') by {
            assert(inner =~= seq!['{'] + inner.drop_first());
        }
        lemma_skip_gaps_over(s, 1, "\n  "@);
        assert(skip_gaps(s, 1) == 4);
        assert(at_pos(s, 4, Seq::<char>::empty() + inner)) by {
            assert(Seq::<char>::empty() + inner =~= inner);
        }
        lemma_scan_card_at(s, 4, Seq::<char>::empty(), m0);
        let j0: int = 4 + inner.len() as int;
        assert(scan_card(s, 4) == Some((m0, j0)));
        lemma_scan_cards_rest_at(s, j0, seq![m0], tail);
        assert(seq![m0] + tail =~= ms);
        let j1: int = j0 + after_cards(tail).len() as int;
        assert(scan_cards_rest(s, j0, seq![m0]) == Some((ms, j1)));
        assert(j1 == s.len());
        assert(skip_gaps(s, j1) == j1);
        assert(spec_parse(s) == Some(ms));
    }
}

} // verus!
