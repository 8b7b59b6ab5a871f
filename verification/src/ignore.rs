//! Ignore rules for scanned files: glob, simple-regex and substring patterns.
//!
//! The simple-regex matcher understands `*` (any run of characters), `?`
//! and `.` (any single character), and literal characters otherwise. A run
//! is bounded by an iteration budget so that pathological patterns are
//! answered `false` instead of taking exponential time.
use vstd::prelude::*;
use crate::records::IgnorePattern;
use crate::text::{
    chars_of, contains_seq, has_infix, replace_char, replace_char_exec, str_eq, string_of,
    to_lowercase, unicode_lowercase,
};

verus! {

/// Starting iteration budget of one match.
pub const MATCH_BUDGET: u64 = 4096;

/// Patterns with more stars than this are rejected outright.
pub const MAX_STARS: usize = 10;

/// A pattern character matches a text character.
pub open spec fn char_matches(pc: char, tc: char) -> bool {
    pc == '?' || pc == '.' || pc == tc
}

/// Unbounded meaning of a pattern: the whole text matches the whole pattern.
pub open spec fn wildcard_match(p: Seq<char>, t: Seq<char>) -> bool
    decreases p.len(), t.len() + 1, 0int,
{
    if p.len() == 0 {
        t.len() == 0
    } else if p[0] == '*' {
        star_any(p.drop_first(), t, 0)
    } else {
        t.len() > 0 && char_matches(p[0], t[0]) && wildcard_match(p.drop_first(), t.drop_first())
    }
}

/// Some suffix `t.skip(j)` with `j >= i` matches `q`.
pub open spec fn star_any(q: Seq<char>, t: Seq<char>, i: nat) -> bool
    decreases q.len() + 1, t.len() - i, 1int,
    when i <= t.len()
{
    wildcard_match(q, t.skip(i as int)) || (i < t.len() && star_any(q, t, i + 1))
}

/// The budgeted search: the answer and the budget left over.
pub open spec fn regex_run(p: Seq<char>, t: Seq<char>, budget: nat) -> (bool, nat)
    decreases p.len(), t.len() + 1, 0int,
{
    if budget == 0 {
        (false, 0)
    } else {
        let b = (budget - 1) as nat;
        if p.len() == 0 {
            (t.len() == 0, b)
        } else if p[0] == '*' {
            star_run(p.drop_first(), t, 0, b)
        } else if t.len() == 0 {
            (false, b)
        } else if char_matches(p[0], t[0]) {
            regex_run(p.drop_first(), t.drop_first(), b)
        } else {
            (false, b)
        }
    }
}

/// The budgeted search after a star: try `q` against `t.skip(i)`,
/// `t.skip(i + 1)`, ... until one matches or the text is used up.
pub open spec fn star_run(q: Seq<char>, t: Seq<char>, i: nat, budget: nat) -> (bool, nat)
    decreases q.len() + 1, t.len() - i, 1int,
    when i <= t.len()
{
    let (r, b) = regex_run(q, t.skip(i as int), budget);
    if r {
        (true, b)
    } else if i < t.len() {
        star_run(q, t, i + 1, b)
    } else {
        (false, b)
    }
}

/// Number of `*` in a pattern.
pub open spec fn star_count(p: Seq<char>) -> nat
    decreases p.len(),
{
    if p.len() == 0 {
        0
    } else {
        star_count(p.drop_last()) + if p.last() == '*' { 1nat } else { 0nat }
    }
}

/// What `simple_regex_match` answers.
pub open spec fn simple_regex_spec(p: Seq<char>, t: Seq<char>) -> bool {
    star_count(p) <= MAX_STARS && regex_run(p, t, MATCH_BUDGET as nat).0
}

/// The budgeted search never gains budget; when it answers `true` the text
/// matches the pattern; and when it has budget left at the end, its answer
/// is exactly whether the text matches.
pub proof fn lemma_regex_run_sound(p: Seq<char>, t: Seq<char>, budget: nat)
    ensures
        regex_run(p, t, budget).1 <= budget,
        regex_run(p, t, budget).0 ==> wildcard_match(p, t),
        regex_run(p, t, budget).1 > 0 ==> regex_run(p, t, budget).0 == wildcard_match(p, t),
    decreases p.len(), t.len() + 1, 0int,
{
    if budget > 0 {
        let b = (budget - 1) as nat;
        if p.len() == 0 {
        } else if p[0] == '*' {
            lemma_star_run_sound(p.drop_first(), t, 0, b);
        } else if t.len() == 0 {
        } else if char_matches(p[0], t[0]) {
            lemma_regex_run_sound(p.drop_first(), t.drop_first(), b);
        }
    }
}

/// The star search obeys the same three facts, against `star_any`.
pub proof fn lemma_star_run_sound(q: Seq<char>, t: Seq<char>, i: nat, budget: nat)
    requires
        i <= t.len(),
    ensures
        star_run(q, t, i, budget).1 <= budget,
        star_run(q, t, i, budget).0 ==> star_any(q, t, i),
        star_run(q, t, i, budget).1 > 0 ==> star_run(q, t, i, budget).0 == star_any(q, t, i),
    decreases q.len() + 1, t.len() - i, 1int,
{
    lemma_regex_run_sound(q, t.skip(i as int), budget);
    let (r, b) = regex_run(q, t.skip(i as int), budget);
    if !r && i < t.len() {
        lemma_star_run_sound(q, t, i + 1, b);
    }
}

/// Law: a pattern that `simple_regex_match` accepts really matches the
/// whole text, and when the search runs within its budget the answer is
/// exactly whether the text matches.
pub proof fn lemma_simple_regex_sound(p: Seq<char>, t: Seq<char>)
    ensures
        simple_regex_spec(p, t) ==> wildcard_match(p, t),
        star_count(p) <= MAX_STARS && regex_run(p, t, MATCH_BUDGET as nat).1 > 0 ==> (
        simple_regex_spec(p, t) == wildcard_match(p, t)),
{
    lemma_regex_run_sound(p, t, MATCH_BUDGET as nat);
}

/// `b` to the power `e`.
pub open spec fn pow_nat(b: nat, e: nat) -> nat
    decreases e,
{
    if e == 0 {
        1
    } else {
        b * pow_nat(b, (e - 1) as nat)
    }
}

/// A bound on the steps the budgeted search takes on a pattern against a
/// text of `n` characters: each star tries at most `n + 1` positions, each
/// other character costs one step.
pub open spec fn search_steps(p: Seq<char>, n: nat) -> nat {
    (p.len() + 1) * pow_nat(n + 2, star_count(p))
}

proof fn lemma_pow_facts(a: nat, b: nat, e: nat)
    requires
        1 <= a <= b,
    ensures
        1 <= pow_nat(a, e) <= pow_nat(b, e),
    decreases e,
{
    if e > 0 {
        lemma_pow_facts(a, b, (e - 1) as nat);
        let x = pow_nat(a, (e - 1) as nat);
        let y = pow_nat(b, (e - 1) as nat);
        assert(a * x <= b * y) by (nonlinear_arith)
            requires
                1 <= a <= b,
                1 <= x <= y,
        ;
        assert(1 <= a * x) by (nonlinear_arith)
            requires
                1 <= a,
                1 <= x,
        ;
    }
}

proof fn lemma_star_count_first(p: Seq<char>)
    requires
        p.len() > 0,
    ensures
        star_count(p) == star_count(p.drop_first()) + (if p[0] == '*' { 1nat } else { 0nat }),
    decreases p.len(),
{
    if p.len() == 1 {
        assert(star_count(p.drop_last()) == 0);
        assert(star_count(p.drop_first()) == 0);
        assert(p.last() == p[0]);
    } else {
        lemma_star_count_first(p.drop_last());
        assert(p.drop_last().drop_first() =~= p.drop_first().drop_last());
        assert(p.drop_first().last() == p.last());
        assert(p.drop_last()[0] == p[0]);
    }
}

proof fn lemma_steps_grow(p: Seq<char>, m: nat, n: nat)
    requires
        m <= n,
    ensures
        1 <= search_steps(p, m) <= search_steps(p, n),
{
    lemma_pow_facts(m + 2, n + 2, star_count(p));
    let x = pow_nat(m + 2, star_count(p));
    let y = pow_nat(n + 2, star_count(p));
    let l = p.len() + 1;
    assert(1 <= l * x <= l * y) by (nonlinear_arith)
        requires
            1 <= x <= y,
            1 <= l,
    ;
}

/// The budgeted search spends at most `search_steps` of its budget.
proof fn lemma_regex_run_cost(p: Seq<char>, t: Seq<char>, budget: nat)
    ensures
        regex_run(p, t, budget).1 >= budget - search_steps(p, t.len()),
    decreases p.len(), t.len() + 1, 0int,
{
    lemma_steps_grow(p, t.len(), t.len());
    if budget > 0 {
        let b = (budget - 1) as nat;
        let n = t.len();
        if p.len() == 0 {
            assert(star_count(p) == 0);
            assert(pow_nat(n + 2, 0) == 1);
            assert(search_steps(p, n) == 1);
        } else if p[0] == '*' {
            let q = p.drop_first();
            lemma_star_run_cost(q, t, 0, b);
            lemma_star_count_first(p);
            let x = pow_nat(n + 2, star_count(q));
            lemma_pow_facts(n + 2, n + 2, star_count(q));
            assert(pow_nat(n + 2, star_count(p)) == (n + 2) * x);
            let lq = q.len() + 1;
            assert(1 + (n + 1) * (lq * x) <= (lq + 1) * ((n + 2) * x)) by (nonlinear_arith)
                requires
                    x >= 1,
                    lq >= 1,
            ;
        } else if t.len() == 0 {
        } else if char_matches(p[0], t[0]) {
            let p1 = p.drop_first();
            lemma_regex_run_cost(p1, t.drop_first(), b);
            lemma_star_count_first(p);
            lemma_steps_grow(p1, (n - 1) as nat, n);
            let x = pow_nat(n + 2, star_count(p));
            lemma_pow_facts(n + 2, n + 2, star_count(p));
            assert(search_steps(p1, n) == p.len() * x);
            assert(1 + p.len() * x <= (p.len() + 1) * x) by (nonlinear_arith)
                requires
                    x >= 1,
            ;
        }
    }
}

/// The star search from position `i` spends at most one search of the
/// rest per position left.
proof fn lemma_star_run_cost(q: Seq<char>, t: Seq<char>, i: nat, budget: nat)
    requires
        i <= t.len(),
    ensures
        star_run(q, t, i, budget).1 >= budget - (t.len() - i + 1) * search_steps(q, t.len()),
    decreases q.len() + 1, t.len() - i, 1int,
{
    let u = t.skip(i as int);
    lemma_regex_run_cost(q, u, budget);
    lemma_steps_grow(q, u.len(), t.len());
    let (r, b) = regex_run(q, u, budget);
    let c = search_steps(q, t.len());
    let k = t.len() - i;
    assert(k * c >= 0 && (k + 1) * c == k * c + c) by (nonlinear_arith)
        requires
            k >= 0,
            c >= 0,
    ;
    if !r && i < t.len() {
        lemma_star_run_cost(q, t, i + 1, b);
        assert(t.len() - (i + 1) + 1 == k);
    }
}

/// Law: on every input that the search can settle within its budget (a
/// pattern of at most `MAX_STARS` stars, and `search_steps` under
/// `MATCH_BUDGET`), `simple_regex_match` answers exactly whether the text
/// matches the pattern: `*` any run of characters, `?` and `.` any one
/// character.
pub proof fn lemma_simple_regex_complete(p: Seq<char>, t: Seq<char>)
    requires
        star_count(p) <= MAX_STARS,
        search_steps(p, t.len()) < MATCH_BUDGET,
    ensures
        simple_regex_spec(p, t) == wildcard_match(p, t),
{
    lemma_regex_run_cost(p, t, MATCH_BUDGET as nat);
    lemma_regex_run_sound(p, t, MATCH_BUDGET as nat);
}

proof fn lemma_star_any_witness(q: Seq<char>, t: Seq<char>, i: nat, j: nat)
    requires
        i <= j <= t.len(),
        wildcard_match(q, t.skip(j as int)),
    ensures
        star_any(q, t, i),
    decreases j - i,
{
    if i < j {
        lemma_star_any_witness(q, t, i + 1, j);
    }
}

proof fn lemma_star_any_elim(q: Seq<char>, t: Seq<char>, i: nat) -> (j: nat)
    requires
        i <= t.len(),
        star_any(q, t, i),
    ensures
        i <= j <= t.len(),
        wildcard_match(q, t.skip(j as int)),
    decreases t.len() - i,
{
    if wildcard_match(q, t.skip(i as int)) {
        i
    } else {
        lemma_star_any_elim(q, t, i + 1)
    }
}

/// Law: a lone `*` matches every text.
pub proof fn lemma_star_matches_all(t: Seq<char>)
    ensures
        wildcard_match(seq!['*'], t),
{
    let e = Seq::<char>::empty();
    assert(seq!['*'].drop_first() =~= e);
    assert(t.skip(t.len() as int) =~= e);
    lemma_star_any_witness(e, t, 0, t.len());
}

/// Law: a pattern that ends in `*` matches every text that starts with a
/// match of the rest of the pattern.
pub proof fn lemma_trailing_star(p: Seq<char>, t: Seq<char>, i: int)
    requires
        0 <= i <= t.len(),
        wildcard_match(p, t.take(i)),
    ensures
        wildcard_match(p.push('*'), t),
    decreases p.len(),
{
    let u = t.take(i);
    let ps = p.push('*');
    if p.len() == 0 {
        assert(ps =~= seq!['*']);
        lemma_star_matches_all(t);
    } else if p[0] == '*' {
        let q = p.drop_first();
        assert(ps.drop_first() =~= q.push('*'));
        let j = lemma_star_any_elim(q, u, 0);
        assert(u.skip(j as int) =~= t.skip(j as int).take(i - j));
        lemma_trailing_star(q, t.skip(j as int), i - j);
        lemma_star_any_witness(q.push('*'), t, 0, j);
    } else {
        let q = p.drop_first();
        assert(ps.drop_first() =~= q.push('*'));
        assert(u.drop_first() =~= t.drop_first().take(i - 1));
        lemma_trailing_star(q, t.drop_first(), i - 1);
    }
}

/// Law: `?` and `.` match any one character, and every other character
/// but `*` matches only itself.
pub proof fn lemma_single_char_patterns(c: char, d: char)
    ensures
        wildcard_match(seq!['?'], seq![d]),
        wildcard_match(seq!['.'], seq![d]),
        c != '*' && c != '?' && c != '.' ==> (wildcard_match(seq![c], seq![d]) <==> c == d),
{
    let e = Seq::<char>::empty();
    assert(seq!['?'].drop_first() =~= e);
    assert(seq!['.'].drop_first() =~= e);
    assert(seq![c].drop_first() =~= e);
    assert(seq![d].drop_first() =~= e);
    assert(wildcard_match(e, e));
}

/// One step of the budgeted search at pattern position `pi` and text
/// position `ti`.
fn regex_match_recursive(
    pattern: &[char],
    pi: usize,
    text: &[char],
    ti: usize,
    budget: &mut u64,
) -> (r: bool)
    requires
        pi <= pattern.len(),
        ti <= text.len(),
    ensures
        (r, *final(budget) as nat) == regex_run(
            pattern@.skip(pi as int),
            text@.skip(ti as int),
            *old(budget) as nat,
        ),
    decreases pattern.len() - pi,
{
    let ghost p = pattern@.skip(pi as int);
    let ghost t = text@.skip(ti as int);
    if *budget == 0 {
        return false;
    }
    *budget = *budget - 1;
    if pi == pattern.len() {
        return ti == text.len();
    }
    assert(p[0] == pattern@[pi as int]);
    assert(p.drop_first() =~= pattern@.skip(pi + 1));
    if pattern[pi] == '*' {
        let ghost q = p.drop_first();
        assert(regex_run(p, t, *old(budget) as nat) == star_run(q, t, 0, *budget as nat));
        let mut k: usize = ti;
        loop
            invariant
                pi < pattern.len(),
                ti <= k <= text.len(),
                q == pattern@.skip(pi + 1),
                t == text@.skip(ti as int),
                *old(budget) > 0,
                regex_run(pattern@.skip(pi as int), text@.skip(ti as int), *old(budget) as nat)
                    == star_run(q, t, 0, (*old(budget) - 1) as nat),
                star_run(q, t, 0, (*old(budget) - 1) as nat) == star_run(
                    q,
                    t,
                    (k - ti) as nat,
                    *budget as nat,
                ),
            decreases text.len() - k,
        {
            assert(t.skip(k - ti) =~= text@.skip(k as int));
            let ghost b0 = *budget as nat;
            let ghost i0 = (k - ti) as nat;
            let found = regex_match_recursive(pattern, pi + 1, text, k, budget);
            assert(regex_run(q, t.skip(i0 as int), b0) == (found, *budget as nat));
            if found {
                assert(star_run(q, t, i0, b0) == (true, *budget as nat));
                return true;
            }
            if k == text.len() {
                assert(star_run(q, t, i0, b0) == (false, *budget as nat));
                return false;
            }
            assert(star_run(q, t, i0, b0) == star_run(q, t, i0 + 1, *budget as nat));
            k = k + 1;
        }
    }
    if ti == text.len() {
        return false;
    }
    assert(t[0] == text@[ti as int]);
    assert(t.drop_first() =~= text@.skip(ti + 1));
    let pc = pattern[pi];
    if pc == '?' || pc == '.' || pc == text[ti] {
        return regex_match_recursive(pattern, pi + 1, text, ti + 1, budget);
    }
    false
}

/// Number of stars in a pattern.
fn count_stars(p: &[char]) -> (n: usize)
    ensures
        n == star_count(p@),
{
    let mut n: usize = 0;
    let mut i: usize = 0;
    while i < p.len()
        invariant
            i <= p.len(),
            n == star_count(p@.subrange(0, i as int)),
            n <= i,
        decreases p.len() - i,
    {
        assert(p@.subrange(0, i + 1).drop_last() =~= p@.subrange(0, i as int));
        if p[i] == '*' {
            n = n + 1;
        }
        i = i + 1;
    }
    assert(p@.subrange(0, p.len() as int) =~= p@);
    n
}

/// Whether the whole `text` matches `pattern` (budgeted; patterns with more
/// than ten stars never match).
pub fn simple_regex_match(pattern: &str, text: &str) -> (r: bool)
    ensures
        r == simple_regex_spec(pattern@, text@),
        r ==> wildcard_match(pattern@, text@),
{
    let p = chars_of(pattern);
    let t = chars_of(text);
    proof {
        lemma_simple_regex_sound(pattern@, text@);
    }
    if count_stars(&p) > MAX_STARS {
        return false;
    }
    let mut budget: u64 = MATCH_BUDGET;
    assert(p@.skip(0) =~= p@);
    assert(t@.skip(0) =~= t@);
    regex_match_recursive(&p, 0, &t, 0, &mut budget)
}

/// A compiled simple-regex pattern (stored lower-cased).
pub struct RegexSimple {
    pub pattern: String,
}

impl RegexSimple {
    /// Case-insensitive match of the whole `text`.
    pub fn is_match(&self, text: &str) -> (r: bool)
        ensures
            r == simple_regex_spec(self.pattern@, unicode_lowercase(text@)),
    {
        let text_lower = to_lowercase(text);
        simple_regex_match(self.pattern.as_str(), text_lower.as_str())
    }
}

/// Compiles a simple-regex pattern; this never fails.
pub fn regex_simple(pattern: &str) -> (r: Result<RegexSimple, String>)
    ensures
        r matches Ok(re) && re.pattern@ == unicode_lowercase(pattern@),
{
    Ok(RegexSimple { pattern: to_lowercase(pattern) })
}

// ---------------------------------------------------------------------
// Glob patterns and the ignore decision
// ---------------------------------------------------------------------

/// What the `glob` crate answers for a pattern and a text: `None` when the
/// pattern does not compile, otherwise whether the text matches it.
pub uninterp spec fn glob_result(pattern: Seq<char>, text: Seq<char>) -> Option<bool>;

/// `glob::Pattern::new(pattern)` and, when it compiles, `matches(text)`;
/// the answer is named by `glob_result`.
#[verifier::external_body]
fn glob_pattern_matches(pattern: &str, text: &str) -> (r: Option<bool>)
    ensures
        r == glob_result(pattern@, text@),
{
    match glob::Pattern::new(pattern) {
        Ok(pat) => Some(pat.matches(text)),
        Err(_) => None,
    }
}

/// Case-insensitive glob match; a pattern that does not compile matches
/// as a substring.
pub open spec fn glob_match_spec(pattern: Seq<char>, path: Seq<char>) -> bool {
    let p = unicode_lowercase(pattern);
    let t = unicode_lowercase(path);
    match glob_result(p, t) {
        Some(b) => b,
        None => contains_seq(t, p),
    }
}

/// Whether `path` matches the glob `pattern`, ignoring case.
pub fn glob_match(pattern: &str, path: &str) -> (r: bool)
    ensures
        r == glob_match_spec(pattern@, path@),
{
    let p = to_lowercase(pattern);
    let t = to_lowercase(path);
    match glob_pattern_matches(p.as_str(), t.as_str()) {
        Some(b) => b,
        None => has_infix(&chars_of(t.as_str()), &chars_of(p.as_str())),
    }
}

/// A path as ignore patterns see it: `/` separators, lower case.
pub open spec fn ignore_key(path: Seq<char>) -> Seq<char> {
    unicode_lowercase(replace_char(path, '\\', '/'))
}

/// One ignore pattern applies to the (normalised) path.
pub open spec fn pattern_applies(p: IgnorePattern, key: Seq<char>) -> bool {
    if p.pattern_type@ == "glob"@ {
        glob_match_spec(replace_char(p.pattern@, '\\', '/'), key)
    } else if p.pattern_type@ == "regex"@ {
        simple_regex_spec(unicode_lowercase(p.pattern@), unicode_lowercase(key))
    } else if p.pattern_type@ == "contains"@ {
        contains_seq(key, unicode_lowercase(p.pattern@))
    } else {
        false
    }
}

/// A file is ignored when any of the folder's patterns applies to it.
pub open spec fn ignored_by(ps: Seq<IgnorePattern>, path: Seq<char>) -> bool {
    exists|k: int| 0 <= k < ps.len() && pattern_applies(#[trigger] ps[k], ignore_key(path))
}

fn pattern_applies_exec(p: &IgnorePattern, key: &str) -> (r: bool)
    ensures
        r == pattern_applies(*p, key@),
{
    if str_eq(p.pattern_type.as_str(), "glob") {
        let pat = string_of(&replace_char_exec(&chars_of(p.pattern.as_str()), '\\', '/'));
        glob_match(pat.as_str(), key)
    } else if str_eq(p.pattern_type.as_str(), "regex") {
        match regex_simple(p.pattern.as_str()) {
            Ok(re) => re.is_match(key),
            Err(_) => false,
        }
    } else if str_eq(p.pattern_type.as_str(), "contains") {
        let lp = to_lowercase(p.pattern.as_str());
        has_infix(&chars_of(key), &chars_of(lp.as_str()))
    } else {
        false
    }
}

/// Whether a file is ignored by any of the given patterns.
pub fn should_ignore_file(patterns: &Vec<IgnorePattern>, file_path: &str) -> (r: bool)
    ensures
        r == ignored_by(patterns@, file_path@),
{
    let norm = string_of(&replace_char_exec(&chars_of(file_path), '\\', '/'));
    let key = to_lowercase(norm.as_str());
    let mut k: usize = 0;
    while k < patterns.len()
        invariant
            k <= patterns@.len(),
            key@ == ignore_key(file_path@),
            forall|q: int| 0 <= q < k ==> !pattern_applies(#[trigger] patterns@[q], key@),
        decreases patterns.len() - k,
    {
        if pattern_applies_exec(&patterns[k], key.as_str()) {
            assert(pattern_applies(patterns@[k as int], ignore_key(file_path@)));
            return true;
        }
        k = k + 1;
    }
    false
}

} // verus!
