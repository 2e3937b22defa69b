//! What a report says of its scope, and how it writes numbers.

use crate::stats::{Scope, ScopeKind};
use crate::text::{decimal, push_decimal, push_str, string_of};
use vstd::prelude::*;

verus! {

/// Digits with a comma before every group of three from the right.
pub open spec fn grouped(digits: Seq<char>) -> Seq<char>
    decreases digits.len(),
{
    if digits.len() <= 3 {
        digits
    } else {
        grouped(digits.take(digits.len() - 3)) + seq![','] + digits.skip(digits.len() - 3)
    }
}

/// A number with thousands separators: `-1,234,567`.
pub open spec fn number_text(n: int) -> Seq<char> {
    if n < 0 {
        seq!['-'] + grouped(decimal((-n) as nat))
    } else {
        grouped(decimal(n as nat))
    }
}

/// Appends `digits[..end]`, grouped.
fn push_grouped(out: &mut Vec<char>, digits: &Vec<char>, end: usize)
    requires
        end <= digits@.len(),
    ensures
        final(out)@ == old(out)@ + grouped(digits@.take(end as int)),
    decreases end,
{
    let ghost head = digits@.take(end as int);
    if end <= 3 {
        let mut i: usize = 0;
        while i < end
            invariant
                i <= end <= digits@.len(),
                out@ == old(out)@ + digits@.take(i as int),
            decreases end - i,
        {
            out.push(digits[i]);
            i = i + 1;
            assert(out@ =~= old(out)@ + digits@.take(i as int));
        }
    } else {
        push_grouped(out, digits, end - 3);
        out.push(',');
        out.push(digits[end - 3]);
        out.push(digits[end - 2]);
        out.push(digits[end - 1]);
        assert(head.take(head.len() - 3) =~= digits@.take(end - 3));
        assert(head.skip(head.len() - 3) =~= seq![
            digits@[end - 3],
            digits@[end - 2],
            digits@[end - 1],
        ]);
        assert(out@ =~= old(out)@ + grouped(head));
    }
}

/// `n` with thousands separators.
pub fn format_number(n: i32) -> (text: String)
    ensures
        text@ == number_text(n as int),
{
    let magnitude: u64 = if n < 0 {
        (-(n as i64)) as u64
    } else {
        n as u64
    };
    let mut digits: Vec<char> = Vec::new();
    push_decimal(&mut digits, magnitude);
    assert(digits@ =~= decimal(magnitude as nat));
    let mut out: Vec<char> = Vec::new();
    if n < 0 {
        out.push('-');
    }
    push_grouped(&mut out, &digits, digits.len());
    assert(digits@.take(digits@.len() as int) =~= digits@);
    assert(out@ =~= number_text(n as int));
    string_of(&out)
}

/// The word for a kind of scope, as titles write it.
pub open spec fn kind_title(kind: ScopeKind) -> Seq<char> {
    match kind {
        ScopeKind::Year => "Year "@,
        ScopeKind::Month => "Month "@,
        ScopeKind::Week => "Week "@,
        ScopeKind::Day => "Day "@,
        ScopeKind::Life => "Life-to-date"@,
    }
}

/// The words for a kind of scope, as sentences write it.
pub open spec fn kind_phrase(kind: ScopeKind) -> Seq<char> {
    match kind {
        ScopeKind::Year => "the year "@,
        ScopeKind::Month => "the month "@,
        ScopeKind::Week => "the week "@,
        ScopeKind::Day => "the day "@,
        ScopeKind::Life => "your life on Matrix so far"@,
    }
}

/// `words` and the key, or `words` alone for a `life` scope; the label of
/// the scope where it has one.
pub open spec fn scope_words(scope: Scope, words: Seq<char>) -> Seq<char> {
    match scope.label {
        Some(label) => label@,
        None => if scope.kind == ScopeKind::Life {
            words
        } else {
            words + scope.key@
        },
    }
}

/// `words` and the key of the scope, or the label of the scope.
fn words_of(scope: &Scope, words: &str) -> (text: String)
    ensures
        text@ == scope_words(*scope, words@),
{
    match &scope.label {
        Some(label) => label.clone(),
        None => {
            let mut out: Vec<char> = Vec::new();
            push_str(&mut out, words);
            match scope.kind {
                ScopeKind::Life => {},
                _ => {
                    push_str(&mut out, scope.key.as_str());
                },
            }
            assert(out@ =~= scope_words(*scope, words@));
            string_of(&out)
        },
    }
}

/// The scope as the title of a report names it: `Year 2025`.
pub fn scope_label(scope: &Scope) -> (text: String)
    ensures
        text@ == scope_words(*scope, kind_title(scope.kind)),
{
    match scope.kind {
        ScopeKind::Year => words_of(scope, "Year "),
        ScopeKind::Month => words_of(scope, "Month "),
        ScopeKind::Week => words_of(scope, "Week "),
        ScopeKind::Day => words_of(scope, "Day "),
        ScopeKind::Life => words_of(scope, "Life-to-date"),
    }
}

/// The scope as a sentence of a report names it: `the year 2025`.
pub fn scope_phrase(scope: &Scope) -> (text: String)
    ensures
        text@ == scope_words(*scope, kind_phrase(scope.kind)),
{
    match scope.kind {
        ScopeKind::Year => words_of(scope, "the year "),
        ScopeKind::Month => words_of(scope, "the month "),
        ScopeKind::Week => words_of(scope, "the week "),
        ScopeKind::Day => words_of(scope, "the day "),
        ScopeKind::Life => words_of(scope, "your life on Matrix so far"),
    }
}

/// The name of the file of a Markdown report.
pub open spec fn md_filename(kind: ScopeKind, key: Seq<char>) -> Seq<char> {
    match kind {
        ScopeKind::Year => "my-year-"@ + key + ".md"@,
        ScopeKind::Month => "my-month-"@ + key + ".md"@,
        ScopeKind::Week => "my-week-"@ + key + ".md"@,
        ScopeKind::Day => "my-day-"@ + key + ".md"@,
        ScopeKind::Life => "my-life.md"@,
    }
}

/// The name of the file of the Markdown report for `scope`.
pub fn default_md_filename(scope: &Scope) -> (name: String)
    ensures
        name@ == md_filename(scope.kind, scope.key@),
{
    let mut out: Vec<char> = Vec::new();
    match scope.kind {
        ScopeKind::Year => {
            push_str(&mut out, "my-year-");
        },
        ScopeKind::Month => {
            push_str(&mut out, "my-month-");
        },
        ScopeKind::Week => {
            push_str(&mut out, "my-week-");
        },
        ScopeKind::Day => {
            push_str(&mut out, "my-day-");
        },
        ScopeKind::Life => {
            push_str(&mut out, "my-life.md");
            assert(out@ =~= md_filename(scope.kind, scope.key@));
            return string_of(&out);
        },
    }
    push_str(&mut out, scope.key.as_str());
    push_str(&mut out, ".md");
    assert(out@ =~= md_filename(scope.kind, scope.key@));
    string_of(&out)
}

} // verus!
