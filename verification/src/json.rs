//! The JSON wire format of a batch result, as the ranking endpoint emits
//! it: a verified encoder and decoder for the exact shape
//! `{"status_code":...,"response":[...],"last_updated":"..."}`, with one
//! object per entry.
//!
//! The encoder produces the compact form with the fields in the order
//! above; the decoder accepts exactly that shape.  String fields travel
//! unescaped, so a well-formed value (`wf_batch`) holds no `"` or `\` in
//! any string field, and the decimal score is a run of number characters.

use vstd::prelude::*;
use vstd::string::StringExecFns;
use crate::model::{BatchView, EntryView, PageRank, Response, views_of_entries};

verus! {

// --- The text fragments of the format -----------------------------------

pub open spec fn lit_obj_open() -> Seq<char> {
    seq!['{', '"', 's', 't', 'a', 't', 'u', 's', '_', 'c', 'o', 'd', 'e', '"', ':']
}

pub open spec fn lit_error() -> Seq<char> {
    seq![',', '"', 'e', 'r', 'r', 'o', 'r', '"', ':', '"']
}

pub open spec fn lit_integer() -> Seq<char> {
    seq![
        ',', '"', 'p', 'a', 'g', 'e', '_', 'r', 'a', 'n', 'k', '_', 'i', 'n', 't', 'e', 'g',
        'e', 'r', '"', ':',
    ]
}

pub open spec fn lit_decimal() -> Seq<char> {
    seq![
        ',', '"', 'p', 'a', 'g', 'e', '_', 'r', 'a', 'n', 'k', '_', 'd', 'e', 'c', 'i', 'm',
        'a', 'l', '"', ':',
    ]
}

pub open spec fn lit_rank() -> Seq<char> {
    seq![',', '"', 'r', 'a', 'n', 'k', '"', ':']
}

pub open spec fn lit_domain() -> Seq<char> {
    seq![',', '"', 'd', 'o', 'm', 'a', 'i', 'n', '"', ':', '"']
}

pub open spec fn lit_response() -> Seq<char> {
    seq![',', '"', 'r', 'e', 's', 'p', 'o', 'n', 's', 'e', '"', ':', '[']
}

pub open spec fn lit_updated() -> Seq<char> {
    seq![',', '"', 'l', 'a', 's', 't', '_', 'u', 'p', 'd', 'a', 't', 'e', 'd', '"', ':', '"']
}

pub open spec fn lit_null() -> Seq<char> {
    seq!['n', 'u', 'l', 'l']
}

// --- Well-formed values ---------------------------------------------------

/// A string that travels verbatim between quotes: no quote, no backslash.
pub open spec fn plain(s: Seq<char>) -> bool {
    forall|i: int| 0 <= i < s.len() ==> s[i] != '"' && s[i] != '\\'
}

pub open spec fn is_digit(c: char) -> bool {
    48 <= c as u32 <= 57
}

/// A character that may appear in the unquoted decimal score.
pub open spec fn num_char(c: char) -> bool {
    is_digit(c) || c == '.' || c == '-' || c == '+' || c == 'e' || c == 'E'
}

/// A non-empty run of number characters.
pub open spec fn num_text(s: Seq<char>) -> bool {
    s.len() > 0 && forall|i: int| 0 <= i < s.len() ==> num_char(s[i])
}

/// An entry whose string fields survive the wire unchanged.
pub open spec fn wf_entry(e: EntryView) -> bool {
    &&& plain(e.error)
    &&& plain(e.domain)
    &&& num_text(e.page_rank_decimal)
    &&& match e.rank {
        Some(r) => plain(r),
        None => true,
    }
}

/// A batch whose every field survives the wire unchanged.
pub open spec fn wf_batch(b: BatchView) -> bool {
    &&& plain(b.last_updated)
    &&& forall|i: int| 0 <= i < b.response.len() ==> wf_entry(#[trigger] b.response[i])
}

// --- Decimal numbers ------------------------------------------------------

pub open spec fn digit_char(d: nat) -> char {
    if d == 0 {
        '0'
    } else if d == 1 {
        '1'
    } else if d == 2 {
        '2'
    } else if d == 3 {
        '3'
    } else if d == 4 {
        '4'
    } else if d == 5 {
        '5'
    } else if d == 6 {
        '6'
    } else if d == 7 {
        '7'
    } else if d == 8 {
        '8'
    } else {
        '9'
    }
}

/// The canonical decimal text of a number.
pub open spec fn dec(n: nat) -> Seq<char>
    decreases n,
{
    if n < 10 {
        seq![digit_char(n)]
    } else {
        dec(n / 10) + seq![digit_char(n % 10)]
    }
}

// --- The serialized form --------------------------------------------------

pub open spec fn json_of_rank(r: Option<Seq<char>>) -> Seq<char> {
    match r {
        None => lit_null(),
        Some(c) => seq!['"'] + c + seq!['"'],
    }
}

/// The JSON text of one entry.
pub open spec fn json_of_entry(e: EntryView) -> Seq<char> {
    lit_obj_open() + dec(e.status_code as nat) + lit_error() + e.error + seq!['"'] + lit_integer()
        + dec(e.page_rank_integer as nat) + lit_decimal() + e.page_rank_decimal + lit_rank()
        + json_of_rank(e.rank) + lit_domain() + e.domain + seq!['"'] + seq!['}']
}

/// The comma-separated JSON texts of a list of entries.
pub open spec fn json_of_entries(es: Seq<EntryView>) -> Seq<char>
    decreases es.len(),
{
    if es.len() == 0 {
        Seq::empty()
    } else if es.len() == 1 {
        json_of_entry(es[0])
    } else {
        json_of_entry(es[0]) + seq![','] + json_of_entries(es.skip(1))
    }
}

/// The JSON text of a whole batch result.
pub open spec fn json_of(b: BatchView) -> Seq<char> {
    lit_obj_open() + dec(b.status_code as nat) + lit_response() + json_of_entries(b.response)
        + seq![']'] + lit_updated() + b.last_updated + seq!['"'] + seq!['}']
}

// --- The grammar, as one deterministic parse of the text ------------------

/// Consumes `lit` from the front of `s`, or fails.
pub open spec fn expect(s: Seq<char>, lit: Seq<char>) -> Option<Seq<char>> {
    if lit.is_prefix_of(s) {
        Some(s.skip(lit.len() as int))
    } else {
        None
    }
}

/// Consumes the characters up to and including a closing quote; fails on a
/// backslash or a missing quote.
pub open spec fn parse_string(s: Seq<char>) -> Option<(Seq<char>, Seq<char>)>
    decreases s.len(),
{
    if s.len() == 0 {
        None
    } else if s[0] == '"' {
        Some((Seq::empty(), s.skip(1)))
    } else if s[0] == '\\' {
        None
    } else {
        match parse_string(s.skip(1)) {
            Some(p) => Some((seq![s[0]] + p.0, p.1)),
            None => None,
        }
    }
}

pub open spec fn digit_val(c: char) -> int {
    c as u32 - 48
}

/// Consumes the maximal run of decimal digits.
pub open spec fn parse_digits(s: Seq<char>) -> (Seq<char>, Seq<char>)
    decreases s.len(),
{
    if s.len() > 0 && is_digit(s[0]) {
        let p = parse_digits(s.skip(1));
        (seq![s[0]] + p.0, p.1)
    } else {
        (Seq::empty(), s)
    }
}

/// The number a run of digits denotes.
pub open spec fn digits_val(run: Seq<char>) -> int
    decreases run.len(),
{
    if run.len() == 0 {
        0
    } else {
        digits_val(run.drop_last()) * 10 + digit_val(run.last())
    }
}

pub open spec fn parse_u16(s: Seq<char>) -> Option<(u16, Seq<char>)> {
    let p = parse_digits(s);
    if p.0.len() == 0 || !(0 <= digits_val(p.0) <= 0xffff) {
        None
    } else {
        Some((digits_val(p.0) as u16, p.1))
    }
}

pub open spec fn parse_u32(s: Seq<char>) -> Option<(u32, Seq<char>)> {
    let p = parse_digits(s);
    if p.0.len() == 0 || !(0 <= digits_val(p.0) <= 0xffff_ffff) {
        None
    } else {
        Some((digits_val(p.0) as u32, p.1))
    }
}

/// Consumes the maximal run of number characters.
pub open spec fn parse_numchars(s: Seq<char>) -> (Seq<char>, Seq<char>)
    decreases s.len(),
{
    if s.len() > 0 && num_char(s[0]) {
        let p = parse_numchars(s.skip(1));
        (seq![s[0]] + p.0, p.1)
    } else {
        (Seq::empty(), s)
    }
}

pub open spec fn parse_numtext(s: Seq<char>) -> Option<(Seq<char>, Seq<char>)> {
    let p = parse_numchars(s);
    if p.0.len() == 0 {
        None
    } else {
        Some(p)
    }
}

/// Consumes either `null` or a quoted string.
pub open spec fn parse_rank(s: Seq<char>) -> Option<(Option<Seq<char>>, Seq<char>)> {
    if s.len() > 0 && s[0] == '"' {
        match parse_string(s.skip(1)) {
            Some(p) => Some((Some(p.0), p.1)),
            None => None,
        }
    } else {
        match expect(s, lit_null()) {
            Some(r) => Some((None, r)),
            None => None,
        }
    }
}

/// Consumes one entry object.
pub open spec fn parse_entry(s: Seq<char>) -> Option<(EntryView, Seq<char>)> {
    match expect(s, lit_obj_open()) {
        None => None,
        Some(s1) => match parse_u16(s1) {
            None => None,
            Some((sc, s2)) => match expect(s2, lit_error()) {
                None => None,
                Some(s3) => match parse_string(s3) {
                    None => None,
                    Some((err, s4)) => match expect(s4, lit_integer()) {
                        None => None,
                        Some(s5) => match parse_u32(s5) {
                            None => None,
                            Some((pri, s6)) => match expect(s6, lit_decimal()) {
                                None => None,
                                Some(s7) => match parse_numtext(s7) {
                                    None => None,
                                    Some((dectext, s8)) => match expect(s8, lit_rank()) {
                                        None => None,
                                        Some(s9) => match parse_rank(s9) {
                                            None => None,
                                            Some((rk, s10)) => match expect(s10, lit_domain()) {
                                                None => None,
                                                Some(s11) => match parse_string(s11) {
                                                    None => None,
                                                    Some((dom, s12)) => match expect(
                                                        s12,
                                                        seq!['}'],
                                                    ) {
                                                        None => None,
                                                        Some(s13) => Some(
                                                            (
                                                                EntryView {
                                                                    status_code: sc,
                                                                    error: err,
                                                                    page_rank_integer: pri,
                                                                    page_rank_decimal: dectext,
                                                                    rank: rk,
                                                                    domain: dom,
                                                                },
                                                                s13,
                                                            ),
                                                        ),
                                                    },
                                                },
                                            },
                                        },
                                    },
                                },
                            },
                        },
                    },
                },
            },
        },
    }
}

/// Consumes entry objects separated by commas, up to and including the
/// closing bracket.
pub open spec fn parse_entries(s: Seq<char>) -> Option<(Seq<EntryView>, Seq<char>)>
    decreases s.len(),
    via parse_entries_decreases
{
    if s.len() > 0 && s[0] == ']' {
        Some((Seq::empty(), s.skip(1)))
    } else {
        match parse_entry(s) {
            None => None,
            Some((e, r)) => if r.len() > 0 && r[0] == ',' {
                match parse_entries(r.skip(1)) {
                    Some((es, rr)) => Some((seq![e] + es, rr)),
                    None => None,
                }
            } else if r.len() > 0 && r[0] == ']' {
                Some((seq![e], r.skip(1)))
            } else {
                None
            },
        }
    }
}

#[via_fn]
proof fn parse_entries_decreases(s: Seq<char>) {
    lemma_parse_entry_shrinks(s);
}

/// Consumes a whole batch object; the text must end with it.
pub open spec fn parse_batch(s: Seq<char>) -> Option<BatchView> {
    match expect(s, lit_obj_open()) {
        None => None,
        Some(s1) => match parse_u16(s1) {
            None => None,
            Some((sc, s2)) => match expect(s2, lit_response()) {
                None => None,
                Some(s3) => match parse_entries(s3) {
                    None => None,
                    Some((es, s4)) => match expect(s4, lit_updated()) {
                        None => None,
                        Some(s5) => match parse_string(s5) {
                            None => None,
                            Some((lu, s6)) => match expect(s6, seq!['}']) {
                                None => None,
                                Some(s7) => if s7.len() == 0 {
                                    Some(
                                        BatchView {
                                            status_code: sc,
                                            response: es,
                                            last_updated: lu,
                                        },
                                    )
                                } else {
                                    None
                                },
                            },
                        },
                    },
                },
            },
        },
    }
}

// --- Every parse step leaves a shorter text ------------------------------

proof fn lemma_parse_string_shrinks(s: Seq<char>)
    ensures
        parse_string(s) matches Some(p) ==> p.1.len() < s.len(),
    decreases s.len(),
{
    if s.len() > 0 && s[0] != '"' && s[0] != '\\' {
        lemma_parse_string_shrinks(s.skip(1));
    }
}

proof fn lemma_parse_digits_shrinks(s: Seq<char>)
    ensures
        parse_digits(s).1.len() <= s.len(),
    decreases s.len(),
{
    if s.len() > 0 && is_digit(s[0]) {
        lemma_parse_digits_shrinks(s.skip(1));
    }
}

proof fn lemma_parse_numchars_shrinks(s: Seq<char>)
    ensures
        parse_numchars(s).1.len() <= s.len(),
    decreases s.len(),
{
    if s.len() > 0 && num_char(s[0]) {
        lemma_parse_numchars_shrinks(s.skip(1));
    }
}

proof fn lemma_parse_entry_shrinks(s: Seq<char>)
    ensures
        parse_entry(s) matches Some(p) ==> p.1.len() < s.len(),
{
    if let Some(s1) = expect(s, lit_obj_open()) {
        lemma_parse_digits_shrinks(s1);
        if let Some((sc, s2)) = parse_u16(s1) {
            if let Some(s3) = expect(s2, lit_error()) {
                lemma_parse_string_shrinks(s3);
                if let Some((err, s4)) = parse_string(s3) {
                    if let Some(s5) = expect(s4, lit_integer()) {
                        lemma_parse_digits_shrinks(s5);
                        if let Some((pri, s6)) = parse_u32(s5) {
                            if let Some(s7) = expect(s6, lit_decimal()) {
                                lemma_parse_numchars_shrinks(s7);
                                if let Some((dectext, s8)) = parse_numtext(s7) {
                                    if let Some(s9) = expect(s8, lit_rank()) {
                                        if s9.len() > 0 && s9[0] == '"' {
                                            lemma_parse_string_shrinks(s9.skip(1));
                                        }
                                        if let Some((rk, s10)) = parse_rank(s9) {
                                            if let Some(s11) = expect(s10, lit_domain()) {
                                                lemma_parse_string_shrinks(s11);
                                            }
                                        }
                                    }
                                }
                            }
                        }
                    }
                }
            }
        }
    }
}

// --- Parsing recovers what was serialized ---------------------------------

proof fn lemma_expect_concat(lit: Seq<char>, tail: Seq<char>)
    ensures
        expect(lit + tail, lit) == Some(tail),
{
    assert(lit =~= (lit + tail).subrange(0, lit.len() as int));
    assert((lit + tail).skip(lit.len() as int) =~= tail);
}

/// Scanning characterization of `parse_string`: with the first `k`
/// characters ordinary, the parse is decided by what stands at `k`.
proof fn lemma_parse_string_scan(t: Seq<char>, k: int)
    requires
        0 <= k <= t.len(),
        forall|j: int| 0 <= j < k ==> t[j] != '"' && t[j] != '\\',
    ensures
        k < t.len() && t[k] == '"' ==> parse_string(t) == Some(
            (t.subrange(0, k), t.skip(k + 1)),
        ),
        k < t.len() && t[k] == '\\' ==> parse_string(t) is None,
        k == t.len() ==> parse_string(t) is None,
    decreases k,
{
    if k == 0 {
        if k < t.len() && t[0] == '"' {
            assert(t.subrange(0, 0) =~= Seq::<char>::empty());
        }
    } else {
        lemma_parse_string_scan(t.skip(1), k - 1);
        if k < t.len() && t[k] == '"' {
            assert(t.skip(1)[k - 1] == t[k]);
            assert(seq![t[0]] + t.skip(1).subrange(0, k - 1) =~= t.subrange(0, k));
            assert(t.skip(1).skip(k) =~= t.skip(k + 1));
        } else if k < t.len() && t[k] == '\\' {
            assert(t.skip(1)[k - 1] == t[k]);
        }
    }
}

proof fn lemma_parse_string_concat(c: Seq<char>, tail: Seq<char>)
    requires
        plain(c),
    ensures
        parse_string(c + seq!['"'] + tail) == Some((c, tail)),
{
    let t = c + seq!['"'] + tail;
    lemma_parse_string_scan(t, c.len() as int);
    assert(t.subrange(0, c.len() as int) =~= c);
    assert(t.skip(c.len() as int + 1) =~= tail);
}

proof fn lemma_parse_digits_scan(t: Seq<char>, k: int)
    requires
        0 <= k <= t.len(),
        forall|j: int| 0 <= j < k ==> is_digit(t[j]),
        k == t.len() || !is_digit(t[k]),
    ensures
        parse_digits(t) == (t.subrange(0, k), t.skip(k)),
    decreases k,
{
    if k == 0 {
        assert(t.subrange(0, 0) =~= Seq::<char>::empty());
        assert(t.skip(0) =~= t);
    } else {
        lemma_parse_digits_scan(t.skip(1), k - 1);
        assert(seq![t[0]] + t.skip(1).subrange(0, k - 1) =~= t.subrange(0, k));
        assert(t.skip(1).skip(k - 1) =~= t.skip(k));
    }
}

proof fn lemma_parse_numchars_scan(t: Seq<char>, k: int)
    requires
        0 <= k <= t.len(),
        forall|j: int| 0 <= j < k ==> num_char(t[j]),
        k == t.len() || !num_char(t[k]),
    ensures
        parse_numchars(t) == (t.subrange(0, k), t.skip(k)),
    decreases k,
{
    if k == 0 {
        assert(t.subrange(0, 0) =~= Seq::<char>::empty());
        assert(t.skip(0) =~= t);
    } else {
        lemma_parse_numchars_scan(t.skip(1), k - 1);
        assert(seq![t[0]] + t.skip(1).subrange(0, k - 1) =~= t.subrange(0, k));
        assert(t.skip(1).skip(k - 1) =~= t.skip(k));
    }
}

proof fn lemma_digit_char_val(d: nat)
    requires
        d < 10,
    ensures
        is_digit(digit_char(d)),
        digit_val(digit_char(d)) == d,
{
}

/// The canonical decimal text consists of digits and denotes its number.
proof fn lemma_dec_digits(n: nat)
    ensures
        dec(n).len() >= 1,
        forall|i: int| 0 <= i < dec(n).len() ==> is_digit(#[trigger] dec(n)[i]),
        digits_val(dec(n)) == n,
    decreases n,
{
    if n < 10 {
        lemma_digit_char_val(n);
        assert(dec(n).drop_last() =~= Seq::<char>::empty());
        assert(digits_val(Seq::<char>::empty()) == 0);
        assert(digits_val(dec(n)) == digits_val(Seq::<char>::empty()) * 10 + digit_val(
            digit_char(n),
        ));
    } else {
        lemma_dec_digits(n / 10);
        lemma_digit_char_val(n % 10);
        assert(dec(n).drop_last() =~= dec(n / 10));
        assert(dec(n).last() == digit_char(n % 10));
        assert(digits_val(dec(n)) == digits_val(dec(n / 10)) * 10 + digit_val(
            digit_char(n % 10),
        ));
        assert((n / 10) * 10 + n % 10 == n) by {
            vstd::arithmetic::div_mod::lemma_fundamental_div_mod(n as int, 10);
        }
        assert forall|i: int| 0 <= i < dec(n).len() implies is_digit(#[trigger] dec(n)[i]) by {
            if i < dec(n / 10).len() {
                assert(dec(n)[i] == dec(n / 10)[i]);
            }
        }
    }
}

proof fn lemma_parse_u16_of(n: u16, tail: Seq<char>)
    requires
        tail.len() > 0,
        !is_digit(tail[0]),
    ensures
        parse_u16(dec(n as nat) + tail) == Some((n, tail)),
{
    let d = dec(n as nat);
    lemma_dec_digits(n as nat);
    lemma_parse_digits_scan(d + tail, d.len() as int);
    assert((d + tail).subrange(0, d.len() as int) =~= d);
    assert((d + tail).skip(d.len() as int) =~= tail);
}

proof fn lemma_parse_u32_of(n: u32, tail: Seq<char>)
    requires
        tail.len() > 0,
        !is_digit(tail[0]),
    ensures
        parse_u32(dec(n as nat) + tail) == Some((n, tail)),
{
    let d = dec(n as nat);
    lemma_dec_digits(n as nat);
    lemma_parse_digits_scan(d + tail, d.len() as int);
    assert((d + tail).subrange(0, d.len() as int) =~= d);
    assert((d + tail).skip(d.len() as int) =~= tail);
}

proof fn lemma_parse_numtext_of(d: Seq<char>, tail: Seq<char>)
    requires
        num_text(d),
        tail.len() > 0,
        !num_char(tail[0]),
    ensures
        parse_numtext(d + tail) == Some((d, tail)),
{
    lemma_parse_numchars_scan(d + tail, d.len() as int);
    assert((d + tail).subrange(0, d.len() as int) =~= d);
    assert((d + tail).skip(d.len() as int) =~= tail);
}

proof fn lemma_parse_rank_of(r: Option<Seq<char>>, tail: Seq<char>)
    requires
        r matches Some(c) ==> plain(c),
    ensures
        parse_rank(json_of_rank(r) + tail) == Some((r, tail)),
{
    match r {
        None => {
            let s = json_of_rank(r) + tail;
            assert(s[0] == 'n');
            assert(s =~= lit_null() + tail);
            lemma_expect_concat(lit_null(), tail);
        },
        Some(c) => {
            let s = json_of_rank(r) + tail;
            assert(s[0] == '"');
            assert(s.skip(1) =~= c + seq!['"'] + tail);
            lemma_parse_string_concat(c, tail);
        },
    }
}

/// Parsing an entry's JSON text recovers the entry.
#[verifier::rlimit(100)]
proof fn lemma_parse_entry_of(e: EntryView, tail: Seq<char>)
    requires
        wf_entry(e),
        tail.len() > 0,
    ensures
        parse_entry(json_of_entry(e) + tail) == Some((e, tail)),
{
    let t12 = seq!['}'] + tail;
    let t11 = e.domain + seq!['"'] + t12;
    let t10 = lit_domain() + t11;
    let t9 = json_of_rank(e.rank) + t10;
    let t8 = lit_rank() + t9;
    let t7 = e.page_rank_decimal + t8;
    let t6 = lit_decimal() + t7;
    let t5 = dec(e.page_rank_integer as nat) + t6;
    let t4 = lit_integer() + t5;
    let t3 = e.error + seq!['"'] + t4;
    let t2 = lit_error() + t3;
    let t1 = dec(e.status_code as nat) + t2;
    let s = lit_obj_open() + t1;
    assert(json_of_entry(e) + tail =~= s);
    lemma_expect_concat(lit_obj_open(), t1);
    lemma_parse_u16_of(e.status_code, t2);
    lemma_expect_concat(lit_error(), t3);
    assert(t3 =~= e.error + seq!['"'] + t4);
    lemma_parse_string_concat(e.error, t4);
    lemma_expect_concat(lit_integer(), t5);
    lemma_parse_u32_of(e.page_rank_integer, t6);
    lemma_expect_concat(lit_decimal(), t7);
    lemma_parse_numtext_of(e.page_rank_decimal, t8);
    lemma_expect_concat(lit_rank(), t9);
    lemma_parse_rank_of(e.rank, t10);
    lemma_expect_concat(lit_domain(), t11);
    lemma_parse_string_concat(e.domain, t12);
    lemma_expect_concat(seq!['}'], tail);
    assert(t12 =~= seq!['}'] + tail);
}

/// Parsing an entry list's JSON text recovers the list.
#[verifier::rlimit(100)]
proof fn lemma_parse_entries_of(es: Seq<EntryView>, tail: Seq<char>)
    requires
        forall|i: int| 0 <= i < es.len() ==> wf_entry(#[trigger] es[i]),
        tail.len() > 0,
    ensures
        parse_entries(json_of_entries(es) + seq![']'] + tail) == Some((es, tail)),
    decreases es.len(),
{
    let s = json_of_entries(es) + seq![']'] + tail;
    if es.len() == 0 {
        assert(s =~= seq![']'] + tail);
        assert(s[0] == ']');
        assert(s.skip(1) =~= tail);
        assert(es =~= Seq::<EntryView>::empty());
    } else if es.len() == 1 {
        let inner = seq![']'] + tail;
        assert(s =~= json_of_entry(es[0]) + inner);
        lemma_parse_entry_of(es[0], inner);
        assert(s[0] == '{');
        assert(inner[0] == ']');
        assert(inner.skip(1) =~= tail);
        assert(seq![es[0]] =~= es);
    } else {
        let rest = json_of_entries(es.skip(1)) + seq![']'] + tail;
        let inner = seq![','] + rest;
        assert(s =~= json_of_entry(es[0]) + inner);
        lemma_parse_entry_of(es[0], inner);
        assert(s[0] == '{');
        assert(inner[0] == ',');
        assert(inner.skip(1) =~= rest);
        lemma_parse_entries_of(es.skip(1), tail);
        assert(seq![es[0]] + es.skip(1) =~= es);
    }
}

/// The round trip: the JSON text of a well-formed batch parses back to
/// exactly that batch.  Serialization loses nothing.
#[verifier::rlimit(100)]
pub proof fn lemma_json_round_trip(b: BatchView)
    requires
        wf_batch(b),
    ensures
        parse_batch(json_of(b)) == Some(b),
{
    let t6 = seq!['}'];
    let t5 = b.last_updated + seq!['"'] + t6;
    let t4 = lit_updated() + t5;
    let t3 = json_of_entries(b.response) + seq![']'] + t4;
    let t2 = lit_response() + t3;
    let t1 = dec(b.status_code as nat) + t2;
    let s = lit_obj_open() + t1;
    assert(json_of(b) =~= s);
    lemma_expect_concat(lit_obj_open(), t1);
    lemma_parse_u16_of(b.status_code, t2);
    lemma_expect_concat(lit_response(), t3);
    lemma_parse_entries_of(b.response, t4);
    lemma_expect_concat(lit_updated(), t5);
    lemma_parse_string_concat(b.last_updated, t6);
    lemma_expect_concat(seq!['}'], Seq::<char>::empty());
    assert(t6 =~= seq!['}'] + Seq::<char>::empty());
}

// --- The encoder ----------------------------------------------------------

fn digit_str(d: u32) -> (r: &'static str)
    requires
        d < 10,
    ensures
        r@ == seq![digit_char(d as nat)],
{
    proof {
        reveal_strlit("0");
        reveal_strlit("1");
        reveal_strlit("2");
        reveal_strlit("3");
        reveal_strlit("4");
        reveal_strlit("5");
        reveal_strlit("6");
        reveal_strlit("7");
        reveal_strlit("8");
        reveal_strlit("9");
    }
    match d {
        0 => "0",
        1 => "1",
        2 => "2",
        3 => "3",
        4 => "4",
        5 => "5",
        6 => "6",
        7 => "7",
        8 => "8",
        _ => "9",
    }
}

/// Appends the canonical decimal text of `n`.
fn push_dec(out: &mut String, n: u32)
    ensures
        final(out)@ == old(out)@ + dec(n as nat),
    decreases n,
{
    if n < 10 {
        out.append(digit_str(n));
    } else {
        let q = n / 10;
        let r = n % 10;
        push_dec(out, q);
        out.append(digit_str(r));
        proof {
            assert(out@ =~= old(out)@ + dec(n as nat));
        }
    }
}

/// Appends the JSON text of one entry.
fn push_entry(out: &mut String, e: &Response)
    ensures
        final(out)@ == old(out)@ + json_of_entry(e@),
{
    proof {
        reveal_strlit("{\"status_code\":");
        reveal_strlit(",\"error\":\"");
        reveal_strlit(",\"page_rank_integer\":");
        reveal_strlit(",\"page_rank_decimal\":");
        reveal_strlit(",\"rank\":");
        reveal_strlit(",\"domain\":\"");
        reveal_strlit("null");
        reveal_strlit("\"");
        reveal_strlit("}");
        assert("{\"status_code\":"@ =~= lit_obj_open());
        assert(",\"error\":\""@ =~= lit_error());
        assert(",\"page_rank_integer\":"@ =~= lit_integer());
        assert(",\"page_rank_decimal\":"@ =~= lit_decimal());
        assert(",\"rank\":"@ =~= lit_rank());
        assert(",\"domain\":\""@ =~= lit_domain());
        assert("null"@ =~= lit_null());
        assert("\""@ =~= seq!['"']);
        assert("}"@ =~= seq!['}']);
    }
    out.append("{\"status_code\":");
    push_dec(out, e.status_code as u32);
    out.append(",\"error\":\"");
    out.append(e.error.as_str());
    out.append("\"");
    out.append(",\"page_rank_integer\":");
    push_dec(out, e.page_rank_integer);
    out.append(",\"page_rank_decimal\":");
    out.append(e.page_rank_decimal.as_str());
    out.append(",\"rank\":");
    match &e.rank {
        None => out.append("null"),
        Some(r) => {
            out.append("\"");
            out.append(r.as_str());
            out.append("\"");
        },
    }
    out.append(",\"domain\":\"");
    out.append(e.domain.as_str());
    out.append("\"");
    out.append("}");
    proof {
        assert(out@ =~= old(out)@ + json_of_entry(e@));
    }
}

/// Appends the JSON texts of the entries from position `i` on, separated
/// by commas.
fn push_entries(out: &mut String, entries: &Vec<Response>, i: usize)
    requires
        i <= entries@.len(),
    ensures
        final(out)@ == old(out)@ + json_of_entries(views_of_entries(entries@).skip(i as int)),
    decreases entries@.len() - i,
{
    let ghost views = views_of_entries(entries@).skip(i as int);
    if i == entries.len() {
        proof {
            assert(views =~= Seq::<EntryView>::empty());
            assert(out@ =~= out@ + json_of_entries(views));
        }
    } else {
        proof {
            assert(views[0] == entries@[i as int]@);
        }
        push_entry(out, &entries[i]);
        if i + 1 < entries.len() {
            proof {
                reveal_strlit(",");
                assert(","@ =~= seq![',']);
            }
            out.append(",");
            push_entries(out, entries, i + 1);
            proof {
                assert(views.skip(1) =~= views_of_entries(entries@).skip(i + 1));
                assert(views.len() > 1);
                assert(out@ =~= old(out)@ + json_of_entries(views));
            }
        } else {
            proof {
                assert(views.len() == 1);
                assert(out@ =~= old(out)@ + json_of_entries(views));
            }
        }
    }
}

/// Serializes a batch result to its JSON text.
pub fn to_json(p: &PageRank) -> (r: String)
    ensures
        r@ == json_of(p@),
{
    proof {
        reveal_strlit("{\"status_code\":");
        reveal_strlit(",\"response\":[");
        reveal_strlit("]");
        reveal_strlit(",\"last_updated\":\"");
        reveal_strlit("\"");
        reveal_strlit("}");
        assert("{\"status_code\":"@ =~= lit_obj_open());
        assert(",\"response\":["@ =~= lit_response());
        assert("]"@ =~= seq![']']);
        assert(",\"last_updated\":\""@ =~= lit_updated());
        assert("\""@ =~= seq!['"']);
        assert("}"@ =~= seq!['}']);
    }
    let mut out = String::new();
    out.append("{\"status_code\":");
    push_dec(&mut out, p.status_code as u32);
    out.append(",\"response\":[");
    push_entries(&mut out, &p.response, 0);
    out.append("]");
    out.append(",\"last_updated\":\"");
    out.append(p.last_updated.as_str());
    out.append("\"");
    out.append("}");
    proof {
        assert(views_of_entries(p.response@).skip(0) =~= views_of_entries(p.response@));
        assert(out@ =~= json_of(p@));
    }
    out
}

// --- The decoder ----------------------------------------------------------

/// Consumes `lit` at position `pos`, as `expect` does on the remaining text.
fn expect_lit(s: &str, pos: usize, lit: &str) -> (r: Option<usize>)
    requires
        pos <= s@.len(),
    ensures
        match r {
            Some(p2) => p2 == pos + lit@.len() && p2 <= s@.len() && expect(
                s@.skip(pos as int),
                lit@,
            ) == Some(s@.skip(p2 as int)),
            None => expect(s@.skip(pos as int), lit@) is None,
        },
{
    let n = lit.unicode_len();
    let slen = s.unicode_len();
    if slen - pos < n {
        proof {
            assert(!lit@.is_prefix_of(s@.skip(pos as int)));
        }
        return None;
    }
    let mut k: usize = 0;
    while k < n
        invariant
            k <= n,
            pos + n <= slen,
            slen == s@.len(),
            n == lit@.len(),
            forall|j: int| 0 <= j < k ==> s@[pos + j] == lit@[j],
        decreases n - k,
    {
        let a = s.get_char(pos + k);
        let b = lit.get_char(k);
        if a != b {
            proof {
                if lit@.is_prefix_of(s@.skip(pos as int)) {
                    assert(lit@ == s@.skip(pos as int).subrange(0, n as int));
                    assert(lit@[k as int] == s@.skip(pos as int)[k as int]);
                    assert(s@.skip(pos as int)[k as int] == s@[pos + k]);
                }
            }
            return None;
        }
        k = k + 1;
    }
    proof {
        assert(lit@ =~= s@.skip(pos as int).subrange(0, n as int));
        assert(s@.skip(pos as int).skip(n as int) =~= s@.skip(pos + n));
    }
    Some(pos + n)
}

/// Exec test for `is_digit`.
fn is_digit_char(c: char) -> (b: bool)
    ensures
        b == is_digit(c),
{
    let u = c as u32;
    48 <= u && u <= 57
}

/// Exec test for `num_char`.
fn is_number_char(c: char) -> (b: bool)
    ensures
        b == num_char(c),
{
    let u = c as u32;
    (48 <= u && u <= 57) || c == '.' || c == '-' || c == '+' || c == 'e' || c == 'E'
}

/// Consumes a string body up to its closing quote, as `parse_string` does.
fn parse_string_at(s: &str, pos: usize) -> (r: Option<(String, usize)>)
    requires
        pos <= s@.len(),
    ensures
        match r {
            Some(p) => pos <= p.1 <= s@.len() && parse_string(s@.skip(pos as int)) == Some(
                (p.0@, s@.skip(p.1 as int)),
            ),
            None => parse_string(s@.skip(pos as int)) is None,
        },
{
    let slen = s.unicode_len();
    let mut i: usize = pos;
    while i < slen && s.get_char(i) != '"' && s.get_char(i) != '\\'
        invariant
            pos <= i <= slen,
            slen == s@.len(),
            forall|j: int| pos <= j < i ==> s@[j] != '"' && s@[j] != '\\',
        decreases slen - i,
    {
        i = i + 1;
    }
    proof {
        lemma_parse_string_scan(s@.skip(pos as int), i - pos);
    }
    if i == slen {
        return None;
    }
    if s.get_char(i) == '\\' {
        return None;
    }
    let content = s.substring_char(pos, i);
    proof {
        assert(s@.skip(pos as int).subrange(0, i - pos) =~= s@.subrange(pos as int, i as int));
        assert(s@.skip(pos as int).skip(i - pos + 1) =~= s@.skip(i + 1));
    }
    Some((String::from_str(content), i + 1))
}

/// Consumes a digit run and its value, as `parse_u16` does.
fn parse_u16_at(s: &str, pos: usize) -> (r: Option<(u16, usize)>)
    requires
        pos <= s@.len(),
    ensures
        match r {
            Some(p) => pos <= p.1 <= s@.len() && parse_u16(s@.skip(pos as int)) == Some(
                (p.0, s@.skip(p.1 as int)),
            ),
            None => parse_u16(s@.skip(pos as int)) is None,
        },
{
    let slen = s.unicode_len();
    let mut i: usize = pos;
    while i < slen && is_digit_char(s.get_char(i))
        invariant
            pos <= i <= slen,
            slen == s@.len(),
            forall|j: int| pos <= j < i ==> is_digit(s@[j]),
        decreases slen - i,
    {
        i = i + 1;
    }
    proof {
        lemma_parse_digits_scan(s@.skip(pos as int), i - pos);
        assert(s@.skip(pos as int).subrange(0, i - pos) =~= s@.subrange(pos as int, i as int));
        assert(s@.skip(pos as int).skip(i - pos) =~= s@.skip(i as int));
    }
    if i == pos {
        return None;
    }
    let ghost run = s@.subrange(pos as int, i as int);
    let mut acc: u32 = 0;
    let mut too_big = false;
    let mut j: usize = pos;
    while j < i
        invariant
            pos <= j <= i <= slen,
            slen == s@.len(),
            run == s@.subrange(pos as int, i as int),
            forall|k: int| pos <= k < i ==> is_digit(s@[k]),
            !too_big ==> acc <= 0xffff && acc == digits_val(
                s@.subrange(pos as int, j as int),
            ),
            too_big ==> digits_val(s@.subrange(pos as int, j as int)) > 0xffff,
        decreases i - j,
    {
        let d = s.get_char(j) as u32 - 48;
        proof {
            assert(s@.subrange(pos as int, j + 1).drop_last() =~= s@.subrange(
                pos as int,
                j as int,
            ));
            assert(s@.subrange(pos as int, j + 1).last() == s@[j as int]);
            assert(digits_val(s@.subrange(pos as int, j + 1)) == digits_val(
                s@.subrange(pos as int, j as int),
            ) * 10 + digit_val(s@[j as int]));
        }
        if too_big {
        } else {
            acc = acc * 10 + d;
            if acc > 0xffff {
                too_big = true;
            }
        }
        j = j + 1;
    }
    proof {
        assert(s@.subrange(pos as int, i as int) == run);
    }
    if too_big {
        return None;
    }
    Some((acc as u16, i))
}

/// Consumes a digit run and its value, as `parse_u32` does.
fn parse_u32_at(s: &str, pos: usize) -> (r: Option<(u32, usize)>)
    requires
        pos <= s@.len(),
    ensures
        match r {
            Some(p) => pos <= p.1 <= s@.len() && parse_u32(s@.skip(pos as int)) == Some(
                (p.0, s@.skip(p.1 as int)),
            ),
            None => parse_u32(s@.skip(pos as int)) is None,
        },
{
    let slen = s.unicode_len();
    let mut i: usize = pos;
    while i < slen && is_digit_char(s.get_char(i))
        invariant
            pos <= i <= slen,
            slen == s@.len(),
            forall|j: int| pos <= j < i ==> is_digit(s@[j]),
        decreases slen - i,
    {
        i = i + 1;
    }
    proof {
        lemma_parse_digits_scan(s@.skip(pos as int), i - pos);
        assert(s@.skip(pos as int).subrange(0, i - pos) =~= s@.subrange(pos as int, i as int));
        assert(s@.skip(pos as int).skip(i - pos) =~= s@.skip(i as int));
    }
    if i == pos {
        return None;
    }
    let ghost run = s@.subrange(pos as int, i as int);
    let mut acc: u64 = 0;
    let mut too_big = false;
    let mut j: usize = pos;
    while j < i
        invariant
            pos <= j <= i <= slen,
            slen == s@.len(),
            run == s@.subrange(pos as int, i as int),
            forall|k: int| pos <= k < i ==> is_digit(s@[k]),
            !too_big ==> acc <= 0xffff_ffff && acc == digits_val(
                s@.subrange(pos as int, j as int),
            ),
            too_big ==> digits_val(s@.subrange(pos as int, j as int)) > 0xffff_ffff,
        decreases i - j,
    {
        let d = (s.get_char(j) as u32 - 48) as u64;
        proof {
            assert(s@.subrange(pos as int, j + 1).drop_last() =~= s@.subrange(
                pos as int,
                j as int,
            ));
            assert(s@.subrange(pos as int, j + 1).last() == s@[j as int]);
            assert(digits_val(s@.subrange(pos as int, j + 1)) == digits_val(
                s@.subrange(pos as int, j as int),
            ) * 10 + digit_val(s@[j as int]));
        }
        if too_big {
        } else {
            acc = acc * 10 + d;
            if acc > 0xffff_ffff {
                too_big = true;
            }
        }
        j = j + 1;
    }
    proof {
        assert(s@.subrange(pos as int, i as int) == run);
    }
    if too_big {
        return None;
    }
    Some((acc as u32, i))
}

/// Consumes a run of number characters, as `parse_numtext` does.
fn parse_numtext_at(s: &str, pos: usize) -> (r: Option<(String, usize)>)
    requires
        pos <= s@.len(),
    ensures
        match r {
            Some(p) => pos <= p.1 <= s@.len() && parse_numtext(s@.skip(pos as int)) == Some(
                (p.0@, s@.skip(p.1 as int)),
            ),
            None => parse_numtext(s@.skip(pos as int)) is None,
        },
{
    let slen = s.unicode_len();
    let mut i: usize = pos;
    while i < slen && is_number_char(s.get_char(i))
        invariant
            pos <= i <= slen,
            slen == s@.len(),
            forall|j: int| pos <= j < i ==> num_char(s@[j]),
        decreases slen - i,
    {
        i = i + 1;
    }
    proof {
        lemma_parse_numchars_scan(s@.skip(pos as int), i - pos);
        assert(s@.skip(pos as int).subrange(0, i - pos) =~= s@.subrange(pos as int, i as int));
        assert(s@.skip(pos as int).skip(i - pos) =~= s@.skip(i as int));
    }
    if i == pos {
        return None;
    }
    let content = s.substring_char(pos, i);
    Some((String::from_str(content), i))
}

/// Consumes `null` or a quoted string, as `parse_rank` does.
fn parse_rank_at(s: &str, pos: usize) -> (r: Option<(Option<String>, usize)>)
    requires
        pos <= s@.len(),
    ensures
        match r {
            Some(p) => pos <= p.1 <= s@.len() && parse_rank(s@.skip(pos as int)) == Some(
                (
                    match p.0 {
                        Some(c) => Some(c@),
                        None => None,
                    },
                    s@.skip(p.1 as int),
                ),
            ),
            None => parse_rank(s@.skip(pos as int)) is None,
        },
{
    let slen = s.unicode_len();
    if pos < slen && s.get_char(pos) == '"' {
        proof {
            assert(s@.skip(pos as int).skip(1) =~= s@.skip(pos + 1));
        }
        match parse_string_at(s, pos + 1) {
            Some((c, p2)) => Some((Some(c), p2)),
            None => None,
        }
    } else {
        proof {
            reveal_strlit("null");
            assert("null"@ =~= lit_null());
        }
        match expect_lit(s, pos, "null") {
            Some(p2) => Some((None, p2)),
            None => None,
        }
    }
}

/// Consumes one entry object, as `parse_entry` does.
fn parse_entry_at(s: &str, pos: usize) -> (r: Option<(Response, usize)>)
    requires
        pos <= s@.len(),
    ensures
        match r {
            Some(p) => pos < p.1 <= s@.len() && parse_entry(s@.skip(pos as int)) == Some(
                (p.0@, s@.skip(p.1 as int)),
            ),
            None => parse_entry(s@.skip(pos as int)) is None,
        },
{
    proof {
        reveal_strlit("{\"status_code\":");
        reveal_strlit(",\"error\":\"");
        reveal_strlit(",\"page_rank_integer\":");
        reveal_strlit(",\"page_rank_decimal\":");
        reveal_strlit(",\"rank\":");
        reveal_strlit(",\"domain\":\"");
        reveal_strlit("}");
        assert("{\"status_code\":"@ =~= lit_obj_open());
        assert(",\"error\":\""@ =~= lit_error());
        assert(",\"page_rank_integer\":"@ =~= lit_integer());
        assert(",\"page_rank_decimal\":"@ =~= lit_decimal());
        assert(",\"rank\":"@ =~= lit_rank());
        assert(",\"domain\":\""@ =~= lit_domain());
        assert("}"@ =~= seq!['}']);
    }
    let p1 = match expect_lit(s, pos, "{\"status_code\":") {
        Some(p) => p,
        None => {
            return None;
        },
    };
    let (sc, p2) = match parse_u16_at(s, p1) {
        Some(p) => p,
        None => {
            return None;
        },
    };
    let p3 = match expect_lit(s, p2, ",\"error\":\"") {
        Some(p) => p,
        None => {
            return None;
        },
    };
    let (err, p4) = match parse_string_at(s, p3) {
        Some(p) => p,
        None => {
            return None;
        },
    };
    let p5 = match expect_lit(s, p4, ",\"page_rank_integer\":") {
        Some(p) => p,
        None => {
            return None;
        },
    };
    let (pri, p6) = match parse_u32_at(s, p5) {
        Some(p) => p,
        None => {
            return None;
        },
    };
    let p7 = match expect_lit(s, p6, ",\"page_rank_decimal\":") {
        Some(p) => p,
        None => {
            return None;
        },
    };
    let (dectext, p8) = match parse_numtext_at(s, p7) {
        Some(p) => p,
        None => {
            return None;
        },
    };
    let p9 = match expect_lit(s, p8, ",\"rank\":") {
        Some(p) => p,
        None => {
            return None;
        },
    };
    let (rk, p10) = match parse_rank_at(s, p9) {
        Some(p) => p,
        None => {
            return None;
        },
    };
    let p11 = match expect_lit(s, p10, ",\"domain\":\"") {
        Some(p) => p,
        None => {
            return None;
        },
    };
    let (dom, p12) = match parse_string_at(s, p11) {
        Some(p) => p,
        None => {
            return None;
        },
    };
    let p13 = match expect_lit(s, p12, "}") {
        Some(p) => p,
        None => {
            return None;
        },
    };
    let entry = Response {
        status_code: sc,
        error: err,
        page_rank_integer: pri,
        page_rank_decimal: dectext,
        rank: rk,
        domain: dom,
    };
    Some((entry, p13))
}

/// Consumes entry objects up to the closing bracket, as `parse_entries`
/// does.
fn parse_entries_at(s: &str, pos: usize) -> (r: Option<(Vec<Response>, usize)>)
    requires
        pos <= s@.len(),
    ensures
        match r {
            Some(p) => pos <= p.1 <= s@.len() && parse_entries(s@.skip(pos as int)) == Some(
                (views_of_entries(p.0@), s@.skip(p.1 as int)),
            ),
            None => parse_entries(s@.skip(pos as int)) is None,
        },
    decreases s@.len() - pos,
{
    let slen = s.unicode_len();
    if pos < slen && s.get_char(pos) == ']' {
        proof {
            assert(s@.skip(pos as int).skip(1) =~= s@.skip(pos + 1));
            assert(views_of_entries(Seq::<Response>::empty()) =~= Seq::<EntryView>::empty());
        }
        return Some((Vec::new(), pos + 1));
    }
    match parse_entry_at(s, pos) {
        None => None,
        Some((e, p1)) => {
            if p1 < slen && s.get_char(p1) == ',' {
                proof {
                    assert(s@.skip(p1 as int).skip(1) =~= s@.skip(p1 + 1));
                }
                match parse_entries_at(s, p1 + 1) {
                    None => None,
                    Some((v, p2)) => {
                        let ghost tail_views = views_of_entries(v@);
                        let mut v = v;
                        v.insert(0, e);
                        proof {
                            assert(views_of_entries(v@) =~= seq![e@] + tail_views);
                        }
                        Some((v, p2))
                    },
                }
            } else if p1 < slen && s.get_char(p1) == ']' {
                let mut v: Vec<Response> = Vec::new();
                v.push(e);
                proof {
                    assert(views_of_entries(v@) =~= seq![e@]);
                    assert(s@.skip(p1 as int).skip(1) =~= s@.skip(p1 + 1));
                }
                Some((v, p1 + 1))
            } else {
                None
            }
        },
    }
}

/// Decodes a batch result from its JSON text; fails on any text the
/// encoder cannot have produced from some batch.
#[verifier::rlimit(100)]
pub fn from_json(s: &str) -> (r: Option<PageRank>)
    ensures
        match r {
            Some(p) => parse_batch(s@) == Some(p@),
            None => parse_batch(s@) is None,
        },
{
    proof {
        reveal_strlit("{\"status_code\":");
        reveal_strlit(",\"response\":[");
        reveal_strlit(",\"last_updated\":\"");
        reveal_strlit("}");
        assert("{\"status_code\":"@ =~= lit_obj_open());
        assert(",\"response\":["@ =~= lit_response());
        assert(",\"last_updated\":\""@ =~= lit_updated());
        assert("}"@ =~= seq!['}']);
        assert(s@.skip(0) =~= s@);
    }
    let slen = s.unicode_len();
    let p1 = match expect_lit(s, 0, "{\"status_code\":") {
        Some(p) => p,
        None => {
            return None;
        },
    };
    let (sc, p2) = match parse_u16_at(s, p1) {
        Some(p) => p,
        None => {
            return None;
        },
    };
    let p3 = match expect_lit(s, p2, ",\"response\":[") {
        Some(p) => p,
        None => {
            return None;
        },
    };
    let (entries, p4) = match parse_entries_at(s, p3) {
        Some(p) => p,
        None => {
            return None;
        },
    };
    let p5 = match expect_lit(s, p4, ",\"last_updated\":\"") {
        Some(p) => p,
        None => {
            return None;
        },
    };
    let (lu, p6) = match parse_string_at(s, p5) {
        Some(p) => p,
        None => {
            return None;
        },
    };
    let p7 = match expect_lit(s, p6, "}") {
        Some(p) => p,
        None => {
            return None;
        },
    };
    if p7 != slen {
        return None;
    }
    Some(PageRank { status_code: sc, response: entries, last_updated: lu })
}

} // verus!
