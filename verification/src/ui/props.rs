//! The property form of a database row: field list, per-type editors and
//! input validation.
use vstd::prelude::*;
use crate::json::Json;
use crate::keys::{KeyCode, KeyEvent};
use crate::order::{is_permutation, stably_sorted};
use crate::records::RowRec;
use crate::ui::table::{column_key, column_view, options_spec, prop_cell, prop_cell_text, schema_columns, schema_entries, schema_options};
use crate::text::{
    all_ascii_digits, chars_of, clone_strings, digits_in, eq_chars, find, find_chars, find_from, has_prefix,
    join, lemma_join_push, occurs_at, push_char, push_str, split_at_pattern, split_on, split_pat, str_eq,
    string_of_range,
};

verus! {

broadcast use vstd::string::group_string_axioms;

/// Code point of the ASCII-lowercase form of `c`.
pub open spec fn lower_code(c: char) -> u32 {
    if 'A' <= c <= 'Z' {
        ((c as u32) + 32) as u32
    } else {
        c as u32
    }
}

/// `s` equals the lowercase word `w` ignoring ASCII case.
pub open spec fn eq_ignore_case(s: Seq<char>, w: Seq<char>) -> bool {
    s.len() == w.len() && forall|k: int| 0 <= k < s.len() ==> lower_code(#[trigger] s[k]) == w[k] as u32
}

/// Position of the first `'e'` or `'E'` at or after `i`.
pub open spec fn exp_pos(s: Seq<char>, i: int) -> Option<int>
    decreases s.len() - i,
{
    if i < 0 || i >= s.len() {
        None
    } else if s[i] == 'e' || s[i] == 'E' {
        Some(i)
    } else {
        exp_pos(s, i + 1)
    }
}

/// `s` without one leading `'+'` or `'-'`.
pub open spec fn unsigned_part(s: Seq<char>) -> Seq<char> {
    if s.len() > 0 && (s[0] == '+' || s[0] == '-') {
        s.skip(1)
    } else {
        s
    }
}

/// `Digit+ | Digit+ '.' Digit* | Digit* '.' Digit+`
pub open spec fn mantissa_ok(m: Seq<char>) -> bool {
    match find(m, seq!['.']) {
        None => m.len() > 0 && all_ascii_digits(m),
        Some(d) => all_ascii_digits(m.take(d)) && all_ascii_digits(m.skip(d + 1)) && (d > 0
            || m.len() > d + 1),
    }
}

/// `Number ::= Mantissa Exp?` with `Exp ::= 'e' Sign? Digit+`.
pub open spec fn number_ok(t: Seq<char>) -> bool {
    match exp_pos(t, 0) {
        None => mantissa_ok(t),
        Some(e) => mantissa_ok(t.take(e)) && unsigned_part(t.skip(e + 1)).len() > 0
            && all_ascii_digits(unsigned_part(t.skip(e + 1))),
    }
}

/// The strings `str::parse::<f64>` accepts, per its documented grammar
/// (matched case-insensitively):
/// `Sign? ('inf' | 'infinity' | 'nan' | Number)`.
pub open spec fn float_syntax(s: Seq<char>) -> bool {
    let t = unsigned_part(s);
    eq_ignore_case(t, seq!['i', 'n', 'f']) || eq_ignore_case(
        t,
        seq!['i', 'n', 'f', 'i', 'n', 'i', 't', 'y'],
    ) || eq_ignore_case(t, seq!['n', 'a', 'n']) || number_ok(t)
}

fn lower_code_exec(c: char) -> (r: u32)
    ensures
        r == lower_code(c),
{
    if 'A' <= c && c <= 'Z' {
        (c as u32) + 32
    } else {
        c as u32
    }
}

fn eq_ignore_case_exec(t: &Vec<char>, w: &Vec<char>) -> (r: bool)
    ensures
        r == eq_ignore_case(t@, w@),
{
    if t.len() != w.len() {
        return false;
    }
    let mut k: usize = 0;
    while k < t.len()
        invariant
            t@.len() == w@.len(),
            k <= t@.len(),
            forall|j: int| 0 <= j < k ==> lower_code(#[trigger] t@[j]) == w@[j] as u32,
        decreases t@.len() - k,
    {
        if lower_code_exec(t[k]) != w[k] as u32 {
            return false;
        }
        k += 1;
    }
    true
}

fn unsigned_start(v: &Vec<char>) -> (r: usize)
    ensures
        r <= v@.len(),
        v@.skip(r as int) == unsigned_part(v@),
{
    if v.len() > 0 && (v[0] == '+' || v[0] == '-') {
        1
    } else {
        assert(v@.skip(0) == v@);
        0
    }
}

fn mantissa_ok_exec(m: &Vec<char>) -> (r: bool)
    ensures
        r == mantissa_ok(m@),
{
    let dot = vec!['.'];
    assert(dot@ == seq!['.']);
    assert(m@.subrange(0, m@.len() as int) == m@);
    match find_chars(m, &dot) {
        None => m.len() > 0 && digits_in(m, 0, m.len()),
        Some(d) => {
            assert(dot@.len() == 1);
            assert(occurs_at(m@, dot@, d as int));
            let n = m.len();
            assert(d < n);
            let a = digits_in(m, 0, d);
            let b = digits_in(m, d + 1, n);
            proof {
                assert(m@.subrange(0, d as int) == m@.take(d as int));
                assert(m@.subrange(d + 1, m@.len() as int) == m@.skip(d + 1));
            }
            a && b && (d > 0 || m.len() > d + 1)
        },
    }
}

fn number_ok_exec(t: &Vec<char>) -> (r: bool)
    ensures
        r == number_ok(t@),
{
    let mut e: usize = 0;
    while e < t.len() && t[e] != 'e' && t[e] != 'E'
        invariant
            e <= t@.len(),
            exp_pos(t@, 0) == exp_pos(t@, e as int),
        decreases t@.len() - e,
    {
        e += 1;
    }
    if e == t.len() {
        return mantissa_ok_exec(t);
    }
    let m = crate::text::slice_vec(t, 0, e);
    let x = crate::text::slice_vec(t, e + 1, t.len());
    let xs = unsigned_start(&x);
    assert(m@ == t@.take(e as int));
    assert(x@ == t@.skip(e + 1));
    let ok_m = mantissa_ok_exec(&m);
    let ok_x = xs < x.len() && digits_in(&x, xs, x.len());
    proof {
        assert(x@.subrange(xs as int, x@.len() as int) == x@.skip(xs as int));
    }
    ok_m && ok_x
}

/// Whether `text` is accepted by `str::parse::<f64>`.
pub fn float_syntax_exec(text: &str) -> (r: bool)
    ensures
        r == float_syntax(text@),
{
    let v = chars_of(text);
    let start = unsigned_start(&v);
    let t = crate::text::slice_vec(&v, start, v.len());
    assert(t@ == unsigned_part(text@));
    let inf = vec!['i', 'n', 'f'];
    let infinity = vec!['i', 'n', 'f', 'i', 'n', 'i', 't', 'y'];
    let nan = vec!['n', 'a', 'n'];
    eq_ignore_case_exec(&t, &inf) || eq_ignore_case_exec(&t, &infinity) || eq_ignore_case_exec(
        &t,
        &nan,
    ) || number_ok_exec(&t)
}

/// Numeric value of a string of ASCII digits.
pub open spec fn digits_value(s: Seq<char>) -> int
    decreases s.len(),
{
    if s.len() == 0 {
        0
    } else {
        digits_value(s.drop_last()) * 10 + (s.last() as u32 - 48)
    }
}

pub open spec fn is_leap(y: int) -> bool {
    y % 4 == 0 && (y % 100 != 0 || y % 400 == 0)
}

pub open spec fn days_in_month(y: int, m: int) -> int {
    if m == 1 || m == 3 || m == 5 || m == 7 || m == 8 || m == 10 || m == 12 {
        31
    } else if m == 4 || m == 6 || m == 9 || m == 11 {
        30
    } else if is_leap(y) {
        29
    } else {
        28
    }
}

/// `YYYY-MM-DD` naming a real calendar day: four, two and two ASCII digits
/// separated by `-`.
pub open spec fn valid_date(text: Seq<char>) -> bool {
    let parts = split_on(text, '-');
    &&& parts.len() == 3
    &&& parts[0].len() == 4 && parts[1].len() == 2 && parts[2].len() == 2
    &&& all_ascii_digits(parts[0]) && all_ascii_digits(parts[1]) && all_ascii_digits(parts[2])
    &&& 1 <= digits_value(parts[1]) <= 12
    &&& 1 <= digits_value(parts[2]) <= days_in_month(digits_value(parts[0]), digits_value(parts[1]))
}

/// The month lengths of the Gregorian calendar, by the knuckle rule:
/// through July the odd months have 31 days, from August the even ones;
/// the others have 30, except February with 28, or 29 in a leap year (a
/// multiple of 4 that is not a multiple of 100 unless of 400).
pub proof fn law_month_lengths(y: int, m: int)
    requires
        1 <= m <= 12,
    ensures
        days_in_month(y, m) == if m == 2 {
            if y % 4 == 0 && (y % 100 != 0 || y % 400 == 0) {
                29int
            } else {
                28int
            }
        } else if (m <= 7) == (m % 2 == 1) {
            31int
        } else {
            30int
        },
{
}

/// A year has 365 days, 366 in a leap year.
pub proof fn law_year_length(y: int)
    ensures
        days_in_month(y, 1) + days_in_month(y, 2) + days_in_month(y, 3) + days_in_month(y, 4) + days_in_month(y, 5)
            + days_in_month(y, 6) + days_in_month(y, 7) + days_in_month(y, 8) + days_in_month(y, 9)
            + days_in_month(y, 10) + days_in_month(y, 11) + days_in_month(y, 12) == if y % 4 == 0 && (y % 100 != 0
            || y % 400 == 0) {
            366int
        } else {
            365int
        },
{
}

proof fn lemma_split_date(y: Seq<char>, m: Seq<char>, d: Seq<char>)
    requires
        y.len() == 4 && m.len() == 2 && d.len() == 2,
        all_ascii_digits(y) && all_ascii_digits(m) && all_ascii_digits(d),
    ensures
        split_on(y + seq!['-'] + m + seq!['-'] + d, '-') == seq![y, m, d],
{
    let s = y + seq!['-'] + m + seq!['-'] + d;
    let p = seq!['-'];
    assert forall|i: int| 0 <= i < 4 implies !crate::text::occurs_at(s, p, i) by {
        assert(s[i] == y[i]);
        assert(s.subrange(i, i + 1)[0] == s[i]);
    }
    assert(crate::text::occurs_at(s, p, 4)) by {
        assert(s.subrange(4, 5) =~= p);
    }
    assert(find_from(s, p, 4) == Some(4int));
    assert(find_from(s, p, 3) == Some(4int));
    assert(find_from(s, p, 2) == Some(4int));
    assert(find_from(s, p, 1) == Some(4int));
    assert(find_from(s, p, 0) == Some(4int));
    assert(s.take(4) =~= y);
    let s2 = s.skip(5);
    assert(s2 =~= m + seq!['-'] + d);
    assert forall|i: int| 0 <= i < 2 implies !crate::text::occurs_at(s2, p, i) by {
        assert(s2[i] == m[i]);
        assert(s2.subrange(i, i + 1)[0] == s2[i]);
    }
    assert(crate::text::occurs_at(s2, p, 2)) by {
        assert(s2.subrange(2, 3) =~= p);
    }
    assert(find_from(s2, p, 2) == Some(2int));
    assert(find_from(s2, p, 1) == Some(2int));
    assert(find_from(s2, p, 0) == Some(2int));
    assert(s2.take(2) =~= m);
    let s3 = s2.skip(3);
    assert(s3 =~= d);
    assert forall|i: int| 0 <= i < 2 implies !crate::text::occurs_at(s3, p, i) by {
        assert(s3[i] == d[i]);
        assert(s3.subrange(i, i + 1)[0] == s3[i]);
    }
    assert(!crate::text::occurs_at(s3, p, 2));
    assert(find_from(s3, p, 3) is None);
    assert(find_from(s3, p, 2) is None);
    assert(find_from(s3, p, 1) is None);
    assert(find_from(s3, p, 0) is None);
    assert(split_on(s3, '-') == seq![d]);
    assert(split_on(s2, '-') =~= seq![m] + seq![d]);
    assert(split_on(s, '-') =~= seq![y] + (seq![m] + seq![d]));
}

/// New Year's Eve is a date in every four-digit year, and the day after
/// the last of December is not.
pub proof fn law_last_day_of_the_year(y: Seq<char>)
    requires
        y.len() == 4,
        all_ascii_digits(y),
    ensures
        valid_date(y + seq!['-', '1', '2', '-', '3', '1']),
        !valid_date(y + seq!['-', '1', '2', '-', '3', '2']),
{
    let m = seq!['1', '2'];
    let d1 = seq!['3', '1'];
    let d2 = seq!['3', '2'];
    lemma_split_date(y, m, d1);
    lemma_split_date(y, m, d2);
    assert(y + seq!['-', '1', '2', '-', '3', '1'] =~= y + seq!['-'] + m + seq!['-'] + d1);
    assert(y + seq!['-', '1', '2', '-', '3', '2'] =~= y + seq!['-'] + m + seq!['-'] + d2);
    assert(digits_value(m) == 12) by {
        assert(m.drop_last() =~= seq!['1']);
        assert(seq!['1'].drop_last() =~= Seq::<char>::empty());
        assert(digits_value(Seq::<char>::empty()) == 0);
        assert(('1' as u32) == 49);
        assert(('2' as u32) == 50);
        assert(digits_value(seq!['1']) == 1);
        assert(m.last() == '2');
    }
    assert(digits_value(d1) == 31) by {
        assert(d1.drop_last() =~= seq!['3']);
        assert(seq!['3'].drop_last() =~= Seq::<char>::empty());
        assert(digits_value(Seq::<char>::empty()) == 0);
        assert(('3' as u32) == 51);
        assert(('1' as u32) == 49);
        assert(digits_value(seq!['3']) == 3);
        assert(d1.last() == '1');
    }
    assert(digits_value(d2) == 32) by {
        assert(d2.drop_last() =~= seq!['3']);
        assert(seq!['3'].drop_last() =~= Seq::<char>::empty());
        assert(digits_value(Seq::<char>::empty()) == 0);
        assert(('3' as u32) == 51);
        assert(('2' as u32) == 50);
        assert(digits_value(seq!['3']) == 3);
        assert(d2.last() == '2');
    }
}

pub open spec fn pow10(n: nat) -> int
    decreases n,
{
    if n == 0 {
        1
    } else {
        10 * pow10((n - 1) as nat)
    }
}

proof fn lemma_digits_value_bound(s: Seq<char>)
    requires
        all_ascii_digits(s),
    ensures
        0 <= digits_value(s) < pow10(s.len()),
    decreases s.len(),
{
    if s.len() > 0 {
        let init = s.drop_last();
        assert(all_ascii_digits(init)) by {
            assert forall|k: int| 0 <= k < init.len() implies '0' <= #[trigger] init[k] <= '9' by {
                assert(init[k] == s[k]);
            }
        }
        lemma_digits_value_bound(init);
        let d = s.last() as u32 - 48;
        assert('0' <= s[s.len() - 1] <= '9');
        assert(0 <= d <= 9);
        let v = digits_value(init);
        let p = pow10(init.len());
        assert(v * 10 + d < 10 * p) by (nonlinear_arith)
            requires
                0 <= v < p,
                0 <= d <= 9,
        ;
    }
}

/// Value of the ASCII digits `v[a..b]`, at most four of them.
fn small_digits_value(v: &Vec<char>, a: usize, b: usize) -> (r: u32)
    requires
        a <= b <= v@.len(),
        b - a <= 4,
        all_ascii_digits(v@.subrange(a as int, b as int)),
    ensures
        r == digits_value(v@.subrange(a as int, b as int)),
{
    let mut acc: u32 = 0;
    let mut k = a;
    while k < b
        invariant
            a <= k <= b <= v@.len(),
            b - a <= 4,
            all_ascii_digits(v@.subrange(a as int, b as int)),
            acc == digits_value(v@.subrange(a as int, k as int)),
            acc < pow10((k - a) as nat),
        decreases b - k,
    {
        let ghost s = v@.subrange(a as int, k + 1);
        proof {
            assert(s.drop_last() == v@.subrange(a as int, k as int));
            assert(s.last() == v@[k as int]);
            assert(v@[k as int] == v@.subrange(a as int, b as int)[k - a]);
            assert(pow10((k - a) as nat) <= 1000) by {
                assert(pow10(0) == 1);
                assert(pow10(1) == 10);
                assert(pow10(2) == 100);
                assert(pow10(3) == 1000);
            }
        }
        let d = (v[k] as u32) - 48;
        acc = acc * 10 + d;
        k += 1;
        proof {
            assert(all_ascii_digits(s)) by {
                assert forall|j: int| 0 <= j < s.len() implies '0' <= #[trigger] s[j] <= '9' by {
                    assert(s[j] == v@.subrange(a as int, b as int)[j]);
                }
            }
            lemma_digits_value_bound(s);
        }
    }
    acc
}

/// Whether `text` is a `YYYY-MM-DD` date naming a real calendar day.
fn is_valid_date(text: &str) -> (r: bool)
    ensures
        r == valid_date(text@),
{
    let v = chars_of(text);
    let parts = crate::text::split_chars(&v, '-');
    if parts.len() != 3 {
        return false;
    }
    let y = &parts[0];
    let m = &parts[1];
    let d = &parts[2];
    if y.len() != 4 || m.len() != 2 || d.len() != 2 {
        return false;
    }
    proof {
        assert(y@.subrange(0, 4) == y@);
        assert(m@.subrange(0, 2) == m@);
        assert(d@.subrange(0, 2) == d@);
    }
    if !digits_in(y, 0, 4) || !digits_in(m, 0, 2) || !digits_in(d, 0, 2) {
        return false;
    }
    let yv = small_digits_value(y, 0, 4);
    let mv = small_digits_value(m, 0, 2);
    let dv = small_digits_value(d, 0, 2);
    if !(1 <= mv && mv <= 12) {
        return false;
    }
    let leap = yv % 4 == 0 && (yv % 100 != 0 || yv % 400 == 0);
    let days: u32 = if mv == 1 || mv == 3 || mv == 5 || mv == 7 || mv == 8 || mv == 10 || mv == 12 {
        31
    } else if mv == 4 || mv == 6 || mv == 9 || mv == 11 {
        30
    } else if leap {
        29
    } else {
        28
    };
    1 <= dv && dv <= days
}

/// Characters besides digits a phone number may hold.
pub open spec fn phone_char(c: char) -> bool {
    ('0' <= c <= '9') || c == ' ' || c == '+' || c == '-' || c == '(' || c == ')'
}

/// The outcome `validate_input` gives for `prop_type` and `text`.
pub open spec fn validate_spec(prop_type: Seq<char>, text: Seq<char>) -> Result<(), Seq<char>> {
    if text.len() == 0 {
        Ok(())
    } else if prop_type == "number"@ {
        if float_syntax(text) {
            Ok(())
        } else {
            Err("not a number"@)
        }
    } else if prop_type == "date"@ {
        if valid_date(text) {
            Ok(())
        } else {
            Err("not a valid date (expected YYYY-MM-DD)"@)
        }
    } else if prop_type == "url"@ {
        if find(text, seq![':', '/', '/']) is Some {
            Ok(())
        } else {
            Err("not a valid url (missing scheme)"@)
        }
    } else if prop_type == "email"@ {
        match find(text, seq!['@']) {
            None => Err("not a valid email"@),
            Some(at) => if at > 0 && text.len() > at + 1 && find(text.skip(at + 1), seq!['.']) is Some {
                Ok(())
            } else {
                Err("not a valid email"@)
            },
        }
    } else if prop_type == "phone_number"@ {
        if forall|k: int| 0 <= k < text.len() ==> phone_char(#[trigger] text[k]) {
            Ok(())
        } else {
            Err("not a valid phone number"@)
        }
    } else {
        Ok(())
    }
}

pub open spec fn result_view(r: Result<(), String>) -> Result<(), Seq<char>> {
    match r {
        Ok(()) => Ok(()),
        Err(m) => Err(m@),
    }
}

/// Validates a raw text edit against the constraints of the given property
/// type before it is converted and committed. Empty text always passes (it
/// clears the value).
#[verifier::loop_isolation(false)]
pub fn validate_input(prop_type: &str, text: &str) -> (r: Result<(), String>)
    ensures
        result_view(r) == validate_spec(prop_type@, text@),
{
    let v = chars_of(text);
    if v.len() == 0 {
        return Ok(());
    }
    if str_eq(prop_type, "number") {
        if float_syntax_exec(text) {
            Ok(())
        } else {
            Err("not a number".to_owned())
        }
    } else if str_eq(prop_type, "date") {
        if is_valid_date(text) {
            Ok(())
        } else {
            Err("not a valid date (expected YYYY-MM-DD)".to_owned())
        }
    } else if str_eq(prop_type, "url") {
        let pat = vec![':', '/', '/'];
        assert(pat@ == seq![':', '/', '/']);
        if find_chars(&v, &pat).is_some() {
            Ok(())
        } else {
            Err("not a valid url (missing scheme)".to_owned())
        }
    } else if str_eq(prop_type, "email") {
        let at_pat = vec!['@'];
        assert(at_pat@ == seq!['@']);
        match find_chars(&v, &at_pat) {
            None => Err("not a valid email".to_owned()),
            Some(at) => {
                let n = v.len();
                assert(at < n);
                let domain = crate::text::slice_vec(&v, at + 1, n);
                let dot = vec!['.'];
                assert(dot@ == seq!['.']);
                assert(domain@ == v@.skip(at + 1));
                if at > 0 && n > at + 1 && find_chars(&domain, &dot).is_some() {
                    Ok(())
                } else {
                    Err("not a valid email".to_owned())
                }
            },
        }
    } else if str_eq(prop_type, "phone_number") {
        let mut k: usize = 0;
        while k < v.len()
            invariant
                k <= v@.len(),
                forall|j: int| 0 <= j < k ==> phone_char(#[trigger] v@[j]),
            decreases v@.len() - k,
        {
            let c = v[k];
            if !(('0' <= c && c <= '9') || c == ' ' || c == '+' || c == '-' || c == '(' || c
                == ')') {
                assert(!phone_char(v@[k as int]));
                return Err("not a valid phone number".to_owned());
            }
            k += 1;
        }
        Ok(())
    } else {
        Ok(())
    }
}

/// One property of a row as the form shows it.
pub struct PropField {
    pub name: String,
    pub prop_type: String,
    pub value_text: String,
    pub options: Vec<String>,
}

/// In-progress edit for the focused field. Select and MultiSelect are used
/// only when the schema defines options for the field; every other case
/// (select/status without options included) edits plain text.
pub enum Editor {
    Text { buffer: String, error: Option<String> },
    /// `options[0]` is always the synthetic "(clear)" entry.
    Select { options: Vec<String>, cursor: usize },
    MultiSelect { options: Vec<String>, checked: Vec<bool>, cursor: usize },
}

/// The property form of one row.
pub struct PropsState {
    pub row_id: String,
    pub fields: Vec<PropField>,
    pub cursor: usize,
    pub editor: Option<Editor>,
}

/// What a key press on the form asks the caller to do.
pub enum PropsAction {
    Noop,
    Close,
    Commit { prop_name: String, prop_type: String, text: String },
}

/// A field as plain text.
pub struct FieldView {
    pub name: Seq<char>,
    pub prop_type: Seq<char>,
    pub value_text: Seq<char>,
    pub options: Seq<Seq<char>>,
}

/// An editor as plain values.
pub enum EditorView {
    Text { buffer: Seq<char>, error: Option<Seq<char>> },
    Select { options: Seq<Seq<char>>, cursor: int },
    MultiSelect { options: Seq<Seq<char>>, checked: Seq<bool>, cursor: int },
}

/// An action as plain values.
pub enum ActionView {
    Noop,
    Close,
    Commit { prop_name: Seq<char>, prop_type: Seq<char>, text: Seq<char> },
}

/// The texts of a list of strings.
pub open spec fn strs(v: Seq<String>) -> Seq<Seq<char>> {
    v.map_values(|s: String| s@)
}

impl View for PropField {
    type V = FieldView;

    open spec fn view(&self) -> FieldView {
        FieldView {
            name: self.name@,
            prop_type: self.prop_type@,
            value_text: self.value_text@,
            options: strs(self.options@),
        }
    }
}

impl View for Editor {
    type V = EditorView;

    open spec fn view(&self) -> EditorView {
        match self {
            Editor::Text { buffer, error } => EditorView::Text {
                buffer: buffer@,
                error: opt_text(*error),
            },
            Editor::Select { options, cursor } => EditorView::Select {
                options: strs(options@),
                cursor: *cursor as int,
            },
            Editor::MultiSelect { options, checked, cursor } => EditorView::MultiSelect {
                options: strs(options@),
                checked: checked@,
                cursor: *cursor as int,
            },
        }
    }
}

impl View for PropsAction {
    type V = ActionView;

    open spec fn view(&self) -> ActionView {
        match self {
            PropsAction::Noop => ActionView::Noop,
            PropsAction::Close => ActionView::Close,
            PropsAction::Commit { prop_name, prop_type, text } => ActionView::Commit {
                prop_name: prop_name@,
                prop_type: prop_type@,
                text: text@,
            },
        }
    }
}

/// An optional message as plain text.
pub open spec fn opt_text(e: Option<String>) -> Option<Seq<char>> {
    match e {
        Some(m) => Some(m@),
        None => None,
    }
}

/// The fields of a form as plain values.
pub open spec fn fields_view(f: Seq<PropField>) -> Seq<FieldView> {
    f.map_values(|x: PropField| x@)
}

/// The open editor, if any, as plain values.
pub open spec fn editor_view(e: Option<Editor>) -> Option<EditorView> {
    match e {
        Some(ed) => Some(ed@),
        None => None,
    }
}

/// The separator multi-select values are listed with.
pub open spec fn list_sep() -> Seq<char> {
    seq![',', ' ']
}

/// Which options a multi-select editor starts with checked: those named in
/// the field's current `", "`-separated value.
pub open spec fn initially_checked(options: Seq<Seq<char>>, value: Seq<char>) -> Seq<bool> {
    options.map_values(|o: Seq<char>| split_pat(value, list_sep()).contains(o))
}

/// Index of the first option equal to `v`, or 0.
pub open spec fn position_or_zero(opts: Seq<Seq<char>>, v: Seq<char>) -> int {
    if exists|i: int| 0 <= i < opts.len() && opts[i] == v {
        choose|i: int| 0 <= i < opts.len() && opts[i] == v && forall|j: int| 0 <= j < i ==> opts[j] != v
    } else {
        0
    }
}

/// The options among the first `n` that are checked, in order.
pub open spec fn picked(options: Seq<Seq<char>>, checked: Seq<bool>, n: int) -> Seq<Seq<char>>
    decreases n,
{
    if n <= 0 {
        Seq::empty()
    } else if checked[n - 1] {
        picked(options, checked, n - 1).push(options[n - 1])
    } else {
        picked(options, checked, n - 1)
    }
}

/// The entry shown first in a single-select list; choosing it clears the value.
pub open spec fn clear_entry() -> Seq<char> {
    "(clear)"@
}

/// The editor Enter opens on field `f`.
pub open spec fn open_editor_spec(f: FieldView) -> EditorView {
    if f.prop_type == "multi_select"@ && f.options.len() > 0 {
        EditorView::MultiSelect {
            options: f.options,
            checked: initially_checked(f.options, f.value_text),
            cursor: 0,
        }
    } else if f.options.len() > 0 {
        EditorView::Select {
            options: seq![clear_entry()] + f.options,
            cursor: position_or_zero(seq![clear_entry()] + f.options, f.value_text),
        }
    } else {
        EditorView::Text { buffer: f.value_text, error: None }
    }
}

/// Down-list keys.
pub open spec fn is_down(k: KeyEvent) -> bool {
    k.code == KeyCode::Char('j') || k.code == KeyCode::Down
}

/// Up-list keys.
pub open spec fn is_up(k: KeyEvent) -> bool {
    k.code == KeyCode::Char('k') || k.code == KeyCode::Up
}

/// One row down in a list of `n` entries, stopping at the last.
pub open spec fn list_down(c: int, n: int) -> int {
    if c + 1 < n {
        c + 1
    } else {
        n - 1
    }
}

/// One row up, stopping at the first.
pub open spec fn list_up(c: int) -> int {
    if c > 0 {
        c - 1
    } else {
        0
    }
}

/// The text a checkbox commits when toggled from `shown`.
pub open spec fn toggled_checkbox(shown: Seq<char>) -> Seq<char> {
    if shown == "☑"@ {
        "false"@
    } else {
        "true"@
    }
}

/// A commit of `text` for field `f`.
pub open spec fn commit_of(f: FieldView, text: Seq<char>) -> ActionView {
    ActionView::Commit { prop_name: f.name, prop_type: f.prop_type, text }
}

/// The form's answer to key `k` with no editor open: new cursor, editor and action.
pub open spec fn browse_step(fields: Seq<FieldView>, cursor: int, k: KeyEvent) -> (
    int,
    Option<EditorView>,
    ActionView,
) {
    if k.code == KeyCode::Esc {
        (cursor, None, ActionView::Close)
    } else if is_down(k) {
        (if fields.len() > 0 { list_down(cursor, fields.len() as int) } else { cursor }, None, ActionView::Noop)
    } else if is_up(k) {
        (list_up(cursor), None, ActionView::Noop)
    } else if k.code == KeyCode::Enter && 0 <= cursor < fields.len() {
        let f = fields[cursor];
        if f.prop_type == "checkbox"@ {
            (cursor, None, commit_of(f, toggled_checkbox(f.value_text)))
        } else {
            (cursor, Some(open_editor_spec(f)), ActionView::Noop)
        }
    } else {
        (cursor, None, ActionView::Noop)
    }
}

/// The answer to key `k` of a text editor holding `buffer` for field `f`.
pub open spec fn text_step(f: FieldView, buffer: Seq<char>, error: Option<Seq<char>>, k: KeyEvent) -> (
    Option<EditorView>,
    ActionView,
) {
    match k.code {
        KeyCode::Esc => (None, ActionView::Noop),
        KeyCode::Enter => match validate_spec(f.prop_type, buffer) {
            Ok(()) => (None, commit_of(f, buffer)),
            Err(m) => (Some(EditorView::Text { buffer, error: Some(m) }), ActionView::Noop),
        },
        KeyCode::Backspace => (
            Some(
                EditorView::Text {
                    buffer: if buffer.len() > 0 { buffer.drop_last() } else { buffer },
                    error: None,
                },
            ),
            ActionView::Noop,
        ),
        KeyCode::Char(c) => (Some(EditorView::Text { buffer: buffer.push(c), error: None }), ActionView::Noop),
        _ => (Some(EditorView::Text { buffer, error }), ActionView::Noop),
    }
}

/// The answer to key `k` of a single-select list for field `f`.
pub open spec fn select_step(f: FieldView, options: Seq<Seq<char>>, c: int, k: KeyEvent) -> (
    Option<EditorView>,
    ActionView,
) {
    if k.code == KeyCode::Esc {
        (None, ActionView::Noop)
    } else if is_down(k) {
        (Some(EditorView::Select { options, cursor: list_down(c, options.len() as int) }), ActionView::Noop)
    } else if is_up(k) {
        (Some(EditorView::Select { options, cursor: list_up(c) }), ActionView::Noop)
    } else if k.code == KeyCode::Enter {
        (None, commit_of(f, if options[c] == clear_entry() { Seq::empty() } else { options[c] }))
    } else {
        (Some(EditorView::Select { options, cursor: c }), ActionView::Noop)
    }
}

/// The answer to key `k` of a multi-select list for field `f`.
pub open spec fn multi_step(
    f: FieldView,
    options: Seq<Seq<char>>,
    checked: Seq<bool>,
    c: int,
    k: KeyEvent,
) -> (Option<EditorView>, ActionView) {
    if k.code == KeyCode::Esc {
        (None, ActionView::Noop)
    } else if is_down(k) {
        (
            Some(EditorView::MultiSelect { options, checked, cursor: list_down(c, options.len() as int) }),
            ActionView::Noop,
        )
    } else if is_up(k) {
        (Some(EditorView::MultiSelect { options, checked, cursor: list_up(c) }), ActionView::Noop)
    } else if k.code == KeyCode::Char(' ') {
        (
            Some(EditorView::MultiSelect { options, checked: checked.update(c, !checked[c]), cursor: c }),
            ActionView::Noop,
        )
    } else if k.code == KeyCode::Enter {
        (None, commit_of(f, join(picked(options, checked, options.len() as int), list_sep())))
    } else {
        (Some(EditorView::MultiSelect { options, checked, cursor: c }), ActionView::Noop)
    }
}

/// The form's answer to key `k`: new cursor, editor and action.
pub open spec fn props_step(
    fields: Seq<FieldView>,
    cursor: int,
    editor: Option<EditorView>,
    k: KeyEvent,
) -> (int, Option<EditorView>, ActionView) {
    match editor {
        None => browse_step(fields, cursor, k),
        Some(EditorView::Text { buffer, error }) => {
            let (e, a) = text_step(fields[cursor], buffer, error, k);
            (cursor, e, a)
        },
        Some(EditorView::Select { options, cursor: c }) => {
            let (e, a) = select_step(fields[cursor], options, c, k);
            (cursor, e, a)
        },
        Some(EditorView::MultiSelect { options, checked, cursor: c }) => {
            let (e, a) = multi_step(fields[cursor], options, checked, c, k);
            (cursor, e, a)
        },
    }
}

impl PropsState {
    /// The cursor and an open editor point at existing entries.
    pub open spec fn wf(&self) -> bool {
        match self.editor {
            None => true,
            Some(Editor::Text { .. }) => self.cursor < self.fields.len(),
            Some(Editor::Select { options, cursor }) => self.cursor < self.fields.len() && cursor
                < options.len(),
            Some(Editor::MultiSelect { options, checked, cursor }) => self.cursor
                < self.fields.len() && cursor < options.len() && checked.len() == options.len(),
        }
    }

    pub fn new(row_id: String, fields: Vec<PropField>) -> (r: PropsState)
        ensures
            r.row_id == row_id,
            r.fields == fields,
            r.cursor == 0,
            r.editor is None,
            r.wf(),
    {
        PropsState { row_id, fields, cursor: 0, editor: None }
    }

    /// The editor Enter opens on field `f`.
    fn open_editor(f: &PropField) -> (r: Editor)
        ensures
            r@ == open_editor_spec(f@),
            r matches Editor::Select { options, cursor } ==> cursor < options@.len(),
            r matches Editor::MultiSelect { options, checked, cursor } ==> cursor < options@.len()
                && checked@.len() == options@.len(),
    {
        if str_eq(f.prop_type.as_str(), "multi_select") && f.options.len() > 0 {
            let value = chars_of(f.value_text.as_str());
            let sep = vec![',', ' '];
            assert(sep@ == list_sep());
            let parts = split_at_pattern(&value, &sep);
            let mut checked: Vec<bool> = Vec::new();
            let mut i: usize = 0;
            while i < f.options.len()
                invariant
                    i <= f.options@.len(),
                    parts@.len() == split_pat(f.value_text@, list_sep()).len(),
                    forall|k: int|
                        0 <= k < parts@.len() ==> (#[trigger] parts@[k])@ == split_pat(
                            f.value_text@,
                            list_sep(),
                        )[k],
                    checked@ == initially_checked(strs(f.options@), f.value_text@).take(i as int),
                decreases f.options@.len() - i,
            {
                let o = chars_of(f.options[i].as_str());
                let mut found = false;
                let mut j: usize = 0;
                while j < parts.len()
                    invariant
                        j <= parts@.len(),
                        found == exists|q: int| 0 <= q < j && (#[trigger] parts@[q])@ == o@,
                    decreases parts@.len() - j,
                {
                    if eq_chars(&parts[j], &o) {
                        found = true;
                    }
                    j += 1;
                }
                proof {
                    let ps = split_pat(f.value_text@, list_sep());
                    if found {
                        let q = choose|q: int| 0 <= q < parts@.len() && (#[trigger] parts@[q])@ == o@;
                        assert(ps[q] == o@);
                        assert(ps.contains(o@));
                    } else {
                        if ps.contains(o@) {
                            let q = choose|q: int| 0 <= q < ps.len() && ps[q] == o@;
                            assert(parts@[q]@ == o@);
                        }
                    }
                }
                checked.push(found);
                i += 1;
                proof {
                    assert(checked@ =~= initially_checked(strs(f.options@), f.value_text@).take(i as int));
                }
            }
            proof {
                assert(checked@ =~= initially_checked(strs(f.options@), f.value_text@));
            }
            Editor::MultiSelect { options: clone_strings(&f.options), checked, cursor: 0 }
        } else if f.options.len() > 0 {
            let mut options: Vec<String> = Vec::new();
            options.push("(clear)".to_owned());
            let mut i: usize = 0;
            while i < f.options.len()
                invariant
                    i <= f.options@.len(),
                    strs(options@) == seq!["(clear)"@] + strs(f.options@.take(i as int)),
                decreases f.options@.len() - i,
            {
                let ghost prev = options@;
                let item = f.options[i].clone();
                options.push(item);
                i += 1;
                proof {
                    let t = f.options@.take(i as int);
                    let t0 = f.options@.take(i - 1);
                    assert(t =~= t0.push(f.options@[i - 1]));
                    assert(strs(t) =~= strs(t0).push(f.options@[i - 1]@));
                    assert(strs(options@) =~= strs(prev).push(f.options@[i - 1]@));
                    assert(strs(options@) =~= seq!["(clear)"@] + strs(t));
                }
            }
            assert(f.options@.take(f.options@.len() as int) == f.options@);
            let value = chars_of(f.value_text.as_str());
            let mut pos: usize = 0;
            let mut found = false;
            let mut j: usize = 0;
            while j < options.len() && !found
                invariant
                    j <= options@.len(),
                    found ==> j > 0 && pos == j - 1 && strs(options@)[pos as int] == value@,
                    forall|q: int| 0 <= q < (if found { j - 1 } else { j as int }) ==> strs(options@)[q] != value@,
                    !found ==> pos == 0,
                decreases options@.len() - j + (if found { 0int } else { 1int }),
            {
                let o = chars_of(options[j].as_str());
                if eq_chars(&o, &value) {
                    found = true;
                    pos = j;
                }
                j += 1;
            }
            proof {
                let opts = strs(options@);
                if found {
                    assert(exists|i: int| 0 <= i < opts.len() && opts[i] == value@);
                    let c = choose|i: int|
                        0 <= i < opts.len() && opts[i] == value@ && forall|k: int|
                            0 <= k < i ==> opts[k] != value@;
                    if c < pos {
                    } else if c > pos {
                        assert(opts[pos as int] == value@);
                    }
                } else {
                    assert(!exists|i: int| 0 <= i < opts.len() && opts[i] == value@);
                }
            }
            Editor::Select { options, cursor: pos }
        } else {
            Editor::Text { buffer: f.value_text.clone(), error: None }
        }
    }
}


impl PropsState {
    /// Key handling with no editor open.
    fn browse_key(&mut self, key: KeyEvent) -> (r: PropsAction)
        requires
            old(self).editor is None,
        ensures
            final(self).row_id == old(self).row_id,
            final(self).fields == old(self).fields,
            final(self).wf(),
            (final(self).cursor as int, editor_view(final(self).editor), r@) == browse_step(
                fields_view(old(self).fields@),
                old(self).cursor as int,
                key,
            ),
    {
        let n = self.fields.len();
        if key.code == KeyCode::Esc {
            return PropsAction::Close;
        }
        if key.code == KeyCode::Char('j') || key.code == KeyCode::Down {
            if n > 0 {
                self.cursor = if self.cursor < n - 1 {
                    self.cursor + 1
                } else {
                    n - 1
                };
            }
            return PropsAction::Noop;
        }
        if key.code == KeyCode::Char('k') || key.code == KeyCode::Up {
            self.cursor = if self.cursor > 0 {
                self.cursor - 1
            } else {
                0
            };
            return PropsAction::Noop;
        }
        if key.code == KeyCode::Enter && self.cursor < n {
            let field = &self.fields[self.cursor];
            if str_eq(field.prop_type.as_str(), "checkbox") {
                let text = if str_eq(field.value_text.as_str(), "☑") {
                    "false"
                } else {
                    "true"
                };
                return PropsAction::Commit {
                    prop_name: field.name.clone(),
                    prop_type: field.prop_type.clone(),
                    text: text.to_owned(),
                };
            }
            let ed = Self::open_editor(field);
            self.editor = Some(ed);
            return PropsAction::Noop;
        }
        PropsAction::Noop
    }

    /// Key handling with the text editor open on `buffer`.
    fn text_key(&mut self, buffer: String, error: Option<String>, key: KeyEvent) -> (r: PropsAction)
        requires
            old(self).editor is None,
            old(self).cursor < old(self).fields.len(),
        ensures
            final(self).row_id == old(self).row_id,
            final(self).fields == old(self).fields,
            final(self).cursor == old(self).cursor,
            final(self).wf(),
            (editor_view(final(self).editor), r@) == text_step(
                old(self).fields@[old(self).cursor as int]@,
                buffer@,
                opt_text(error),
                key,
            ),
    {
        match key.code {
            KeyCode::Esc => PropsAction::Noop,
            KeyCode::Enter => {
                let field = &self.fields[self.cursor];
                match validate_input(field.prop_type.as_str(), buffer.as_str()) {
                    Ok(()) => PropsAction::Commit {
                        prop_name: field.name.clone(),
                        prop_type: field.prop_type.clone(),
                        text: buffer,
                    },
                    Err(msg) => {
                        self.editor = Some(Editor::Text { buffer, error: Some(msg) });
                        PropsAction::Noop
                    },
                }
            },
            KeyCode::Backspace => {
                let v = chars_of(buffer.as_str());
                let shorter = if v.len() > 0 {
                    string_of_range(&v, 0, v.len() - 1)
                } else {
                    buffer
                };
                self.editor = Some(Editor::Text { buffer: shorter, error: None });
                PropsAction::Noop
            },
            KeyCode::Char(c) => {
                let mut longer = buffer;
                push_char(&mut longer, c);
                self.editor = Some(Editor::Text { buffer: longer, error: None });
                PropsAction::Noop
            },
            _ => {
                self.editor = Some(Editor::Text { buffer, error });
                PropsAction::Noop
            },
        }
    }

    /// Key handling with the single-select list open.
    fn select_key(&mut self, options: Vec<String>, c: usize, key: KeyEvent) -> (r: PropsAction)
        requires
            old(self).editor is None,
            old(self).cursor < old(self).fields.len(),
            c < options.len(),
        ensures
            final(self).row_id == old(self).row_id,
            final(self).fields == old(self).fields,
            final(self).cursor == old(self).cursor,
            final(self).wf(),
            (editor_view(final(self).editor), r@) == select_step(
                old(self).fields@[old(self).cursor as int]@,
                strs(options@),
                c as int,
                key,
            ),
    {
        let n = options.len();
        if key.code == KeyCode::Esc {
            PropsAction::Noop
        } else if key.code == KeyCode::Char('j') || key.code == KeyCode::Down {
            let next = if c < n - 1 {
                c + 1
            } else {
                n - 1
            };
            self.editor = Some(Editor::Select { options, cursor: next });
            PropsAction::Noop
        } else if key.code == KeyCode::Char('k') || key.code == KeyCode::Up {
            let prev = if c > 0 {
                c - 1
            } else {
                0
            };
            self.editor = Some(Editor::Select { options, cursor: prev });
            PropsAction::Noop
        } else if key.code == KeyCode::Enter {
            let chosen = &options[c];
            let text = if str_eq(chosen.as_str(), "(clear)") {
                String::new()
            } else {
                chosen.clone()
            };
            let field = &self.fields[self.cursor];
            PropsAction::Commit {
                prop_name: field.name.clone(),
                prop_type: field.prop_type.clone(),
                text,
            }
        } else {
            self.editor = Some(Editor::Select { options, cursor: c });
            PropsAction::Noop
        }
    }

    /// The checked options joined with `", "`.
    fn joined_checked(options: &Vec<String>, checked: &Vec<bool>) -> (r: String)
        requires
            checked.len() == options.len(),
        ensures
            r@ == join(picked(strs(options@), checked@, options@.len() as int), list_sep()),
    {
        let mut text = String::new();
        let mut first = true;
        let mut i: usize = 0;
        while i < options.len()
            invariant
                i <= options@.len(),
                checked@.len() == options@.len(),
                text@ == join(picked(strs(options@), checked@, i as int), list_sep()),
                first == (picked(strs(options@), checked@, i as int).len() == 0),
            decreases options@.len() - i,
        {
            let ghost before = picked(strs(options@), checked@, i as int);
            if checked[i] {
                if !first {
                    push_char(&mut text, ',');
                    push_char(&mut text, ' ');
                }
                push_str(&mut text, options[i].as_str());
                first = false;
                proof {
                    lemma_join_push(before, options@[i as int]@, list_sep());
                    assert(strs(options@)[i as int] == options@[i as int]@);
                    assert(text@ =~= join(before.push(options@[i as int]@), list_sep()));
                }
            }
            i += 1;
        }
        text
    }

    /// Key handling with the multi-select list open.
    fn multi_key(&mut self, options: Vec<String>, checked: Vec<bool>, c: usize, key: KeyEvent) -> (r:
        PropsAction)
        requires
            old(self).editor is None,
            old(self).cursor < old(self).fields.len(),
            c < options.len(),
            checked.len() == options.len(),
        ensures
            final(self).row_id == old(self).row_id,
            final(self).fields == old(self).fields,
            final(self).cursor == old(self).cursor,
            final(self).wf(),
            (editor_view(final(self).editor), r@) == multi_step(
                old(self).fields@[old(self).cursor as int]@,
                strs(options@),
                checked@,
                c as int,
                key,
            ),
    {
        let n = options.len();
        if key.code == KeyCode::Esc {
            PropsAction::Noop
        } else if key.code == KeyCode::Char('j') || key.code == KeyCode::Down {
            let next = if c < n - 1 {
                c + 1
            } else {
                n - 1
            };
            self.editor = Some(Editor::MultiSelect { options, checked, cursor: next });
            PropsAction::Noop
        } else if key.code == KeyCode::Char('k') || key.code == KeyCode::Up {
            let prev = if c > 0 {
                c - 1
            } else {
                0
            };
            self.editor = Some(Editor::MultiSelect { options, checked, cursor: prev });
            PropsAction::Noop
        } else if key.code == KeyCode::Char(' ') {
            let mut toggled = checked;
            let was = toggled[c];
            toggled.set(c, !was);
            self.editor = Some(Editor::MultiSelect { options, checked: toggled, cursor: c });
            PropsAction::Noop
        } else if key.code == KeyCode::Enter {
            let text = Self::joined_checked(&options, &checked);
            let field = &self.fields[self.cursor];
            PropsAction::Commit {
                prop_name: field.name.clone(),
                prop_type: field.prop_type.clone(),
                text,
            }
        } else {
            self.editor = Some(Editor::MultiSelect { options, checked, cursor: c });
            PropsAction::Noop
        }
    }

    /// Answers a key press: moves through the fields, opens, drives and
    /// closes the per-type editors, and says when a value is to be committed.
    pub fn on_key(&mut self, key: KeyEvent) -> (r: PropsAction)
        requires
            old(self).wf(),
        ensures
            final(self).wf(),
            final(self).row_id == old(self).row_id,
            final(self).fields == old(self).fields,
            (final(self).cursor as int, editor_view(final(self).editor), r@) == props_step(
                fields_view(old(self).fields@),
                old(self).cursor as int,
                editor_view(old(self).editor),
                key,
            ),
    {
        let ed = self.editor.take();
        match ed {
            None => self.browse_key(key),
            Some(Editor::Text { buffer, error }) => self.text_key(buffer, error, key),
            Some(Editor::Select { options, cursor }) => self.select_key(options, cursor, key),
            Some(Editor::MultiSelect { options, checked, cursor }) => self.multi_key(
                options,
                checked,
                cursor,
                key,
            ),
        }
    }
}

/// The form field for schema entry `c` (name, type) of a row with
/// properties `props`: its displayed value and the options the schema
/// declares.
pub open spec fn field_of(schema: Json, props: Json, c: (Seq<char>, Seq<char>)) -> FieldView {
    FieldView {
        name: c.0,
        prop_type: c.1,
        value_text: prop_cell(props, c.0),
        options: options_spec(schema, c.0, c.1),
    }
}

/// `fields` are the form fields of a row with properties `props`, one per
/// schema entry in column order (title first, the rest by lowercased name,
/// ties in schema order).
pub open spec fn fields_built(schema: Json, props: Json, fields: Seq<PropField>) -> bool {
    exists|perm: Seq<usize>|
        is_permutation(perm, schema_entries(schema).len() as int) && stably_sorted(
            schema_entries(schema).map_values(|c: (Seq<char>, Seq<char>)| column_key(c)),
            perm,
        ) && fields.len() == perm.len() && forall|k: int|
            0 <= k < fields.len() ==> (#[trigger] fields[k])@ == field_of(schema, props, schema_entries(schema)[perm[k] as int])
}

/// The form fields of `row`: one per schema column, with the row's value
/// and the schema's options.
pub fn build_fields(schema_json: &Json, row: &RowRec) -> (r: Vec<PropField>)
    ensures
        fields_built(*schema_json, row.properties, r@),
{
    let cols = schema_columns(schema_json);
    let ghost entries = schema_entries(*schema_json);
    let ghost keys = entries.map_values(|c: (Seq<char>, Seq<char>)| column_key(c));
    let ghost perm = choose|perm: Seq<usize>|
        is_permutation(perm, entries.len() as int) && stably_sorted(keys, perm) && cols@.len() == perm.len()
            && forall|k: int| 0 <= k < cols@.len() ==> column_view(#[trigger] cols@[k]) == entries[perm[k] as int];
    let mut out: Vec<PropField> = Vec::new();
    let mut i: usize = 0;
    while i < cols.len()
        invariant
            i <= cols@.len(),
            cols@.len() == perm.len(),
            forall|k: int| 0 <= k < cols@.len() ==> column_view(#[trigger] cols@[k]) == entries[perm[k] as int],
            entries == schema_entries(*schema_json),
            out@.len() == i,
            forall|k: int|
                0 <= k < i ==> (#[trigger] out@[k])@ == field_of(*schema_json, row.properties, entries[perm[k] as int]),
        decreases cols@.len() - i,
    {
        let c = &cols[i];
        let options = schema_options(schema_json, c.name.as_str(), c.prop_type.as_str());
        let f = PropField {
            name: c.name.clone(),
            prop_type: c.prop_type.clone(),
            value_text: prop_cell_text(&row.properties, c.name.as_str()),
            options,
        };
        proof {
            assert(column_view(cols@[i as int]) == entries[perm[i as int] as int]);
        }
        out.push(f);
        i += 1;
    }
    out
}

/// `v` is the string `t`.
pub open spec fn is_text(v: Json, t: Seq<char>) -> bool {
    v matches Json::Str(x) && x@ == t
}

/// `v` is one plain rich-text run holding `text`:
/// `{"plain_text": text, "text": {"content": text}, "type": "text"}`.
pub open spec fn rich_run(v: Json, text: Seq<char>) -> bool {
    v matches Json::Object(e) && e@.len() == 3 && e@[0].0@ == "plain_text"@ && is_text(e@[0].1, text)
        && e@[1].0@ == "text"@ && (e@[1].1 matches Json::Object(c) && c@.len() == 1 && c@[0].0@ == "content"@
        && is_text(c@[0].1, text)) && e@[2].0@ == "type"@ && is_text(e@[2].1, "text"@)
}

/// `v` is `{"name": name}`.
pub open spec fn named_option(v: Json, name: Seq<char>) -> bool {
    v matches Json::Object(m) && m@.len() == 1 && m@[0].0@ == "name"@ && is_text(m@[0].1, name)
}

/// `v` is the property value `{ty: x, "type": ty}` (keys in sorted order)
/// with `x` satisfying `val`.
pub open spec fn typed_value(v: Json, ty: Seq<char>, val: spec_fn(Json) -> bool) -> bool {
    v matches Json::Object(m) && m@.len() == 2 && if ty == "url"@ {
        m@[0].0@ == "type"@ && is_text(m@[0].1, ty) && m@[1].0@ == ty && val(m@[1].1)
    } else {
        m@[0].0@ == ty && val(m@[0].1) && m@[1].0@ == "type"@ && is_text(m@[1].1, ty)
    }
}

/// The property value the text `text` gives a property of type `ty`
/// (`number`: the text read as a number, when it reads as one): a rich-text
/// run for titles and rich text; the number or null; an option by name, or
/// null for an empty text; an option per comma-separated name (trimmed); a
/// date starting on `text`; a checkbox ticked by `true`; the text itself
/// for links, e-mail addresses and phone numbers; null for other types.
pub open spec fn property_value_ok(r: Json, ty: Seq<char>, text: Seq<char>, number: Option<Seq<char>>) -> bool {
    if ty == "title"@ || ty == "rich_text"@ {
        typed_value(r, ty, |x: Json| x matches Json::Array(a) && a@.len() == 1 && rich_run(a@[0], text))
    } else if ty == "number"@ {
        typed_value(
            r,
            ty,
            |x: Json|
                match number {
                    Some(n) => x matches Json::Number(t) && t@ == n,
                    None => x is Null,
                },
        )
    } else if ty == "select"@ || ty == "status"@ {
        typed_value(
            r,
            ty,
            |x: Json|
                if text.len() == 0 {
                    x is Null
                } else {
                    named_option(x, text)
                },
        )
    } else if ty == "multi_select"@ {
        typed_value(
            r,
            ty,
            |x: Json|
                x matches Json::Array(a) && a@.len() == split_on(text, ',').len() && forall|i: int|
                    0 <= i < a@.len() ==> named_option(#[trigger] a@[i], crate::text::trim(split_on(text, ',')[i])),
        )
    } else if ty == "date"@ {
        typed_value(
            r,
            ty,
            |x: Json| x matches Json::Object(m) && m@.len() == 1 && m@[0].0@ == "start"@ && is_text(m@[0].1, text),
        )
    } else if ty == "checkbox"@ {
        typed_value(r, ty, |x: Json| x == Json::Bool(text == "true"@))
    } else if ty == "url"@ || ty == "email"@ || ty == "phone_number"@ {
        typed_value(r, ty, |x: Json| is_text(x, text))
    } else {
        r is Null
    }
}

fn text_json(t: &str) -> (r: Json)
    ensures
        is_text(r, t@),
{
    Json::Str(t.to_owned())
}

fn typed_json(ty: &str, v: Json) -> (r: Json)
    ensures
        typed_value(r, ty@, |x: Json| x == v),
{
    let mut m: Vec<(String, Json)> = Vec::new();
    if str_eq(ty, "url") {
        m.push(("type".to_owned(), text_json(ty)));
        m.push((ty.to_owned(), v));
    } else {
        m.push((ty.to_owned(), v));
        m.push(("type".to_owned(), text_json(ty)));
    }
    Json::Object(m)
}

fn named_json(name: &str) -> (r: Json)
    ensures
        named_option(r, name@),
{
    let mut m: Vec<(String, Json)> = Vec::new();
    m.push(("name".to_owned(), text_json(name)));
    Json::Object(m)
}

fn rich_run_json(text: &str) -> (r: Json)
    ensures
        rich_run(r, text@),
{
    let mut c: Vec<(String, Json)> = Vec::new();
    c.push(("content".to_owned(), text_json(text)));
    let mut e: Vec<(String, Json)> = Vec::new();
    e.push(("plain_text".to_owned(), text_json(text)));
    e.push(("text".to_owned(), Json::Object(c)));
    e.push(("type".to_owned(), text_json("text")));
    Json::Object(e)
}

/// The property value a text edit writes for a property of type
/// `prop_type`; `number` is the text read as a number (its display text),
/// when it reads as one.
pub fn build_property_value(prop_type: &str, text: &str, number: Option<String>) -> (r: Json)
    ensures
        property_value_ok(r, prop_type@, text@, match number {
            Some(n) => Some(n@),
            None => None,
        }),
{
    let ty = prop_type;
    if str_eq(ty, "title") || str_eq(ty, "rich_text") {
        let mut a: Vec<Json> = Vec::new();
        a.push(rich_run_json(text));
        typed_json(ty, Json::Array(a))
    } else if str_eq(ty, "number") {
        let v = match number {
            Some(n) => Json::Number(n),
            None => Json::Null,
        };
        typed_json(ty, v)
    } else if str_eq(ty, "select") || str_eq(ty, "status") {
        let v = if text.is_empty() {
            Json::Null
        } else {
            named_json(text)
        };
        typed_json(ty, v)
    } else if str_eq(ty, "multi_select") {
        let cs = chars_of(text);
        let parts = crate::text::split_chars(&cs, ',');
        let mut a: Vec<Json> = Vec::new();
        let mut i: usize = 0;
        while i < parts.len()
            invariant
                i <= parts@.len() == split_on(text@, ',').len(),
                cs@ == text@,
                forall|k: int| 0 <= k < parts@.len() ==> (#[trigger] parts@[k])@ == split_on(cs@, ',')[k],
                a@.len() == i,
                forall|k: int| 0 <= k < i ==> named_option(#[trigger] a@[k], crate::text::trim(split_on(text@, ',')[k])),
            decreases parts@.len() - i,
        {
            let t = crate::text::trim_chars(&parts[i]);
            let name = crate::text::string_of(&t);
            a.push(named_json(name.as_str()));
            i += 1;
        }
        typed_json(ty, Json::Array(a))
    } else if str_eq(ty, "date") {
        let mut m: Vec<(String, Json)> = Vec::new();
        m.push(("start".to_owned(), text_json(text)));
        typed_json(ty, Json::Object(m))
    } else if str_eq(ty, "checkbox") {
        typed_json(ty, Json::Bool(str_eq(text, "true")))
    } else if str_eq(ty, "url") || str_eq(ty, "email") || str_eq(ty, "phone_number") {
        typed_json(ty, text_json(text))
    } else {
        Json::Null
    }
}

} // verus!
