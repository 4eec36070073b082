use vstd::prelude::*;

verus! {

/// The numeric value of an ASCII digit, or -1 for any other character.
pub open spec fn digit_val(c: char) -> int {
    if c == '0' {
        0
    } else if c == '1' {
        1
    } else if c == '2' {
        2
    } else if c == '3' {
        3
    } else if c == '4' {
        4
    } else if c == '5' {
        5
    } else if c == '6' {
        6
    } else if c == '7' {
        7
    } else if c == '8' {
        8
    } else if c == '9' {
        9
    } else {
        -1
    }
}

/// The value of a digit string read in base ten.
pub open spec fn digits_val(s: Seq<char>) -> int
    decreases s.len(),
{
    if s.len() == 0 {
        0
    } else {
        digits_val(s.drop_last()) * 10 + digit_val(s.last())
    }
}

/// Every character of `s` is an ASCII digit.
pub open spec fn all_digits(s: Seq<char>) -> bool {
    forall|j: int| 0 <= j < s.len() ==> digit_val(s[j]) >= 0
}

/// What `str::parse::<u32>` makes of `s`: an optional leading `+`, then at
/// least one digit, with the value within `u32` — anything else fails.
pub open spec fn spec_parse_u32(s: Seq<char>) -> Option<u32> {
    let t = if s.len() > 0 && s[0] == '+' {
        s.drop_first()
    } else {
        s
    };
    if t.len() >= 1 && all_digits(t) && digits_val(t) <= u32::MAX {
        Some(digits_val(t) as u32)
    } else {
        None
    }
}

proof fn lemma_digits_val_nonneg(s: Seq<char>)
    requires
        all_digits(s),
    ensures
        digits_val(s) >= 0,
    decreases s.len(),
{
    if s.len() > 0 {
        lemma_digits_val_nonneg(s.drop_last());
    }
}

/// A digit string is worth at least its prefix: later digits only scale the
/// value up.
proof fn lemma_digits_val_prefix_le(s: Seq<char>, k: int)
    requires
        all_digits(s),
        0 <= k <= s.len(),
    ensures
        digits_val(s.take(k)) <= digits_val(s),
    decreases s.len() - k,
{
    if k == s.len() {
        assert(s.take(k) =~= s);
    } else {
        lemma_digits_val_prefix_le(s, k + 1);
        assert(s.take(k + 1).drop_last() =~= s.take(k));
        assert(all_digits(s.take(k))) by {
            assert(forall|j: int| 0 <= j < k ==> s.take(k)[j] == s[j]);
        }
        lemma_digits_val_nonneg(s.take(k));
        assert(digits_val(s.take(k + 1)) == digits_val(s.take(k)) * 10 + digit_val(s[k]));
        assert(digits_val(s.take(k)) <= digits_val(s.take(k)) * 10) by (nonlinear_arith)
            requires
                digits_val(s.take(k)) >= 0,
        ;
    }
}

/// Reads the digit character at one position.
fn char_digit(c: char) -> (d: i8)
    ensures
        d == digit_val(c),
{
    if c == '0' {
        0
    } else if c == '1' {
        1
    } else if c == '2' {
        2
    } else if c == '3' {
        3
    } else if c == '4' {
        4
    } else if c == '5' {
        5
    } else if c == '6' {
        6
    } else if c == '7' {
        7
    } else if c == '8' {
        8
    } else if c == '9' {
        9
    } else {
        -1
    }
}

/// Parses a `u32` the way `str::parse` does: optional `+`, then digits.
pub fn parse_u32_chars(cs: &Vec<char>) -> (r: Option<u32>)
    ensures
        r == spec_parse_u32(cs@),
{
    let n = cs.len();
    let mut i: usize = 0;
    if n > 0 && cs[0] == '+' {
        i = 1;
    }
    let ghost t = if cs@.len() > 0 && cs@[0] == '+' {
        cs@.drop_first()
    } else {
        cs@
    };
    let ghost start = i as int;
    proof {
        assert(t =~= cs@.skip(start));
    }
    if i >= n {
        return None;
    }
    let mut acc: u64 = 0;
    while i < n
        invariant
            n == cs@.len(),
            start <= i <= n,
            0 <= start <= 1,
            t == (if cs@.len() > 0 && cs@[0] == '+' {
                cs@.drop_first()
            } else {
                cs@
            }),
            t == cs@.skip(start),
            t.len() == n - start,
            all_digits(t.take(i - start)),
            acc == digits_val(t.take(i - start)),
            acc <= u32::MAX,
        decreases n - i,
    {
        let d = char_digit(cs[i]);
        proof {
            assert(cs@.skip(start)[i - start] == cs@[i as int]);
            assert(t[i - start] == cs@[i as int]);
        }
        if d < 0 {
            proof {
                assert(!all_digits(t));
            }
            return None;
        }
        proof {
            assert(t.take(i - start + 1).drop_last() =~= t.take(i - start));
            assert(t.take(i - start + 1).last() == t[i - start]);
        }
        acc = acc * 10 + (d as u64);
        if acc > u32::MAX as u64 {
            proof {
                assert(all_digits(t.take(i - start + 1)));
                if all_digits(t) {
                    lemma_digits_val_prefix_le(t, i - start + 1);
                }
            }
            return None;
        }
        i = i + 1;
    }
    proof {
        assert(t.take(n - start) =~= t);
    }
    Some(acc as u32)
}

/// `s` with every leading `v` removed, as `str::trim_start_matches` leaves
/// it.
pub open spec fn strip_v(s: Seq<char>) -> Seq<char>
    decreases s.len(),
{
    if s.len() > 0 && s[0] == 'v' {
        strip_v(s.drop_first())
    } else {
        s
    }
}

proof fn lemma_strip_v_skip(s: Seq<char>, k: int)
    requires
        0 <= k <= s.len(),
        forall|j: int| 0 <= j < k ==> s[j] == 'v',
        k < s.len() ==> s[k] != 'v',
    ensures
        strip_v(s) == s.skip(k),
    decreases k,
{
    if k == 0 {
        assert(s.skip(0) =~= s);
    } else {
        assert(s[0] == 'v');
        assert forall|j: int| 0 <= j < k - 1 implies s.drop_first()[j] == 'v' by {
            assert(s.drop_first()[j] == s[j + 1]);
        }
        if k - 1 < s.drop_first().len() {
            assert(s.drop_first()[k - 1] == s[k]);
        }
        lemma_strip_v_skip(s.drop_first(), k - 1);
        assert(s.drop_first().skip(k - 1) =~= s.skip(k));
    }
}

/// Stripping is idempotent: the stripped string no longer starts with `v`.
proof fn lemma_strip_v_idempotent(s: Seq<char>)
    ensures
        strip_v(strip_v(s)) == strip_v(s),
    decreases s.len(),
{
    if s.len() > 0 && s[0] == 'v' {
        lemma_strip_v_idempotent(s.drop_first());
    }
}

/// The index of the first `.` in `s`, or -1 when there is none.
pub open spec fn first_dot(s: Seq<char>) -> int
    decreases s.len(),
{
    if s.len() == 0 {
        -1
    } else if s[0] == '.' {
        0
    } else {
        let r = first_dot(s.drop_first());
        if r == -1 {
            -1
        } else {
            r + 1
        }
    }
}

proof fn lemma_first_dot_correct(s: Seq<char>)
    ensures
        first_dot(s) == -1 ==> forall|j: int| 0 <= j < s.len() ==> s[j] != '.',
        first_dot(s) != -1 ==> {
            let f = first_dot(s);
            &&& 0 <= f < s.len()
            &&& s[f] == '.'
            &&& forall|j: int| 0 <= j < f ==> s[j] != '.'
        },
    decreases s.len(),
{
    if s.len() > 0 {
        lemma_first_dot_correct(s.drop_first());
        assert(forall|j: int| 1 <= j < s.len() ==> s[j] == s.drop_first()[j - 1]);
    }
}

/// `s` cut at every `.`, the way `str::split('.')` cuts it: adjacent dots
/// and dots at the ends yield empty segments.
pub open spec fn split_dots(s: Seq<char>) -> Seq<Seq<char>>
    decreases s.len(),
    via split_dots_decreases
{
    let f = first_dot(s);
    if f == -1 {
        seq![s]
    } else {
        seq![s.take(f)] + split_dots(s.skip(f + 1))
    }
}

#[via_fn]
proof fn split_dots_decreases(s: Seq<char>) {
    lemma_first_dot_correct(s);
}

proof fn lemma_split_dots_nonempty(s: Seq<char>)
    ensures
        split_dots(s).len() >= 1,
{
}

/// The first segment of `x`, extended in front by `p`.
pub open spec fn prepend_first(p: Seq<char>, x: Seq<Seq<char>>) -> Seq<Seq<char>> {
    if x.len() == 0 {
        seq![p]
    } else {
        seq![p + x[0]] + x.drop_first()
    }
}

proof fn lemma_split_dots_dot_head(u: Seq<char>)
    requires
        u.len() > 0,
        u[0] == '.',
    ensures
        split_dots(u) == seq![Seq::<char>::empty()] + split_dots(u.drop_first()),
{
    assert(u.take(0) =~= Seq::<char>::empty());
    assert(u.skip(1) =~= u.drop_first());
}

proof fn lemma_split_dots_char_head(u: Seq<char>)
    requires
        u.len() > 0,
        u[0] != '.',
    ensures
        split_dots(u) == prepend_first(seq![u[0]], split_dots(u.drop_first())),
{
    let d = u.drop_first();
    lemma_first_dot_correct(u);
    lemma_first_dot_correct(d);
    let fd = first_dot(d);
    if fd == -1 {
        assert(first_dot(u) == -1);
        assert(split_dots(u) == seq![u]);
        assert(split_dots(d) == seq![d]);
        assert(seq![u[0]] + d =~= u);
        assert(prepend_first(seq![u[0]], seq![d]) =~= seq![u]);
    } else {
        assert(first_dot(u) == fd + 1);
        assert(u.take(fd + 1) =~= seq![u[0]] + d.take(fd));
        assert(u.skip(fd + 2) =~= d.skip(fd + 1));
        assert(prepend_first(seq![u[0]], split_dots(d)) =~= split_dots(u));
    }
}

proof fn lemma_prepend_compose(p: Seq<char>, q: Seq<char>, x: Seq<Seq<char>>)
    ensures
        prepend_first(p, prepend_first(q, x)) == prepend_first(p + q, x),
{
    if x.len() == 0 {
        assert(prepend_first(p, prepend_first(q, x)) =~= prepend_first(p + q, x));
    } else {
        assert(p + (q + x[0]) =~= (p + q) + x[0]);
        assert(prepend_first(p, prepend_first(q, x)) =~= prepend_first(p + q, x));
    }
}

/// The segments that parse as numbers, in order, the failures skipped.
pub open spec fn kept_numbers(segs: Seq<Seq<char>>) -> Seq<u32>
    decreases segs.len(),
{
    if segs.len() == 0 {
        Seq::empty()
    } else {
        let rest = kept_numbers(segs.drop_first());
        match spec_parse_u32(segs[0]) {
            Option::Some(v) => seq![v] + rest,
            Option::None => rest,
        }
    }
}

/// The `i`-th parsed component of a version, or zero when there is none.
pub open spec fn nth_or_zero(ks: Seq<u32>, i: int) -> int {
    if 0 <= i < ks.len() {
        ks[i] as int
    } else {
        0
    }
}

/// The `(major, minor, patch)` triple read from a version string: an
/// optional `v` prefix is dropped, the rest is cut at dots, segments that
/// fail to parse are skipped, and missing components count as zero.
pub open spec fn spec_version_triple(s: Seq<char>) -> (int, int, int) {
    let ks = kept_numbers(split_dots(strip_v(s)));
    (nth_or_zero(ks, 0), nth_or_zero(ks, 1), nth_or_zero(ks, 2))
}

/// `a` is lexicographically greater than `b`.
pub open spec fn triple_gt(a: (int, int, int), b: (int, int, int)) -> bool {
    a.0 > b.0 || (a.0 == b.0 && (a.1 > b.1 || (a.1 == b.1 && a.2 > b.2)))
}

/// The characters of `s`, in order.
pub fn chars_of(s: &str) -> (r: Vec<char>)
    ensures
        r@ == s@,
{
    let n = s.unicode_len();
    let mut r: Vec<char> = Vec::new();
    let mut i: usize = 0;
    while i < n
        invariant
            n == s@.len(),
            i <= n,
            r@.len() == i,
            forall|j: int| 0 <= j < i ==> r@[j] == s@[j],
        decreases n - i,
    {
        r.push(s.get_char(i));
        i = i + 1;
    }
    proof {
        assert(r@ =~= s@);
    }
    r
}

/// Reads the parsed components of a version string, in order.
fn version_components(s: &str) -> (ks: Vec<u32>)
    ensures
        ks@ == kept_numbers(split_dots(strip_v(s@))),
{
    let cs = chars_of(s);
    let n = cs.len();
    let mut st: usize = 0;
    while st < n && cs[st] == 'v'
        invariant
            n == cs@.len(),
            st <= n,
            forall|j: int| 0 <= j < st ==> cs@[j] == 'v',
        decreases n - st,
    {
        st = st + 1;
    }
    proof {
        lemma_strip_v_skip(cs@, st as int);
    }
    let ghost stripped = strip_v(cs@);
    let mut kept: Vec<u32> = Vec::new();
    let mut cur: Vec<char> = Vec::new();
    let mut i: usize = st;
    proof {
        let x = split_dots(cs@.skip(st as int));
        lemma_split_dots_nonempty(cs@.skip(st as int));
        assert(prepend_first(cur@, x) =~= x) by {
            assert(cur@ + x[0] =~= x[0]);
            assert(seq![x[0]] + x.drop_first() =~= x);
        }
        assert(kept@ + kept_numbers(x) =~= kept_numbers(x));
    }
    while i < n
        invariant
            n == cs@.len(),
            st <= i <= n,
            stripped == strip_v(cs@),
            stripped == cs@.skip(st as int),
            kept_numbers(split_dots(stripped)) == kept@ + kept_numbers(
                prepend_first(cur@, split_dots(cs@.skip(i as int))),
            ),
        decreases n - i,
    {
        let ghost u = cs@.skip(i as int);
        proof {
            assert(u[0] == cs@[i as int]);
            assert(u.drop_first() =~= cs@.skip(i + 1));
        }
        let c = cs[i];
        if c == '.' {
            proof {
                lemma_split_dots_dot_head(u);
                lemma_split_dots_nonempty(cs@.skip(i + 1));
                let x = split_dots(cs@.skip(i + 1));
                assert(prepend_first(cur@, seq![Seq::<char>::empty()] + x) =~= seq![cur@] + x);
                assert((seq![cur@] + x).drop_first() =~= x);
                assert(prepend_first(Seq::<char>::empty(), x) =~= x) by {
                    assert(Seq::<char>::empty() + x[0] =~= x[0]);
                    assert(seq![x[0]] + x.drop_first() =~= x);
                }
            }
            match parse_u32_chars(&cur) {
                Some(v) => {
                    kept.push(v);
                },
                None => {},
            }
            cur = Vec::new();
            proof {
                assert(cur@ =~= Seq::<char>::empty());
            }
        } else {
            proof {
                lemma_split_dots_char_head(u);
                lemma_prepend_compose(cur@, seq![cs@[i as int]], split_dots(cs@.skip(i + 1)));
                assert(cur@.push(cs@[i as int]) =~= cur@ + seq![cs@[i as int]]);
            }
            cur.push(c);
        }
        i = i + 1;
    }
    proof {
        let e = Seq::<char>::empty();
        assert(cs@.skip(n as int) =~= e);
        assert(first_dot(e) == -1);
        assert(split_dots(e) == seq![e]);
        assert(prepend_first(cur@, seq![e]) =~= seq![cur@]) by {
            assert(cur@ + e =~= cur@);
            assert(seq![e].drop_first() =~= Seq::<Seq<char>>::empty());
            assert(seq![cur@ + e] + seq![e].drop_first() =~= seq![cur@]);
        }
        assert(seq![cur@].drop_first() =~= Seq::<Seq<char>>::empty());
        assert(seq![cur@][0] == cur@);
        assert(kept_numbers(Seq::<Seq<char>>::empty()) =~= Seq::<u32>::empty());
    }
    match parse_u32_chars(&cur) {
        Some(v) => {
            kept.push(v);
            proof {
                assert(kept_numbers(seq![cur@]) =~= seq![v]);
                assert(kept@ =~= kept_numbers(split_dots(stripped)));
            }
        },
        None => {
            proof {
                assert(kept_numbers(seq![cur@]) =~= Seq::<u32>::empty());
                assert(kept@ =~= kept_numbers(split_dots(stripped)));
            }
        },
    }
    kept
}

/// What an update check found.
pub struct UpdateCheckResult {
    /// A newer release exists.
    pub has_update: bool,
    /// The newer release's version, when there is one.
    pub new_version: Option<String>,
    /// The release notes, when the release carries any.
    pub release_notes: Option<String>,
    /// The running version the release was compared against.
    pub current_version: String,
}

/// What an update operation produced.
pub enum UpdateResult {
    /// A completed check.
    CheckResult(UpdateCheckResult),
    /// The application was replaced by this version.
    Updated(String),
    /// The operation failed with this message.
    Error(String),
}

/// The version of this library.
pub fn current_version() -> (r: String)
    ensures
        r@ == "0.1.0"@,
{
    "0.1.0".to_owned()
}

/// Removes every leading `v` from a version string.
fn strip_v_prefix(s: &str) -> (r: String)
    ensures
        r@ == strip_v(s@),
{
    let n = s.unicode_len();
    let mut st: usize = 0;
    while st < n && s.get_char(st) == 'v'
        invariant
            n == s@.len(),
            st <= n,
            forall|j: int| 0 <= j < st ==> s@[j] == 'v',
        decreases n - st,
    {
        st = st + 1;
    }
    proof {
        lemma_strip_v_skip(s@, st as int);
    }
    let tail = s.substring_char(st, n);
    proof {
        assert(tail@ =~= s@.skip(st as int));
    }
    tail.to_owned()
}

/// Judges a fetched release against the running version: the release's
/// version is stripped of its `v` prefix and compared; the check result
/// carries the newer version only when there is one, the release notes (an
/// absent body counts as empty), and the running version.
pub fn evaluate_release(release_version: &str, release_notes: Option<String>, current: &str) -> (r:
    UpdateResult)
    ensures
        r is CheckResult,
        ({
            let c = r->CheckResult_0;
            let stripped = strip_v(release_version@);
            &&& c.has_update == triple_gt(
                spec_version_triple(stripped),
                spec_version_triple(current@),
            )
            &&& c.has_update ==> c.new_version is Some && c.new_version->0@ == stripped
            &&& !c.has_update ==> c.new_version is None
            &&& c.release_notes is Some
            &&& c.release_notes->0@ == (match release_notes {
                Option::Some(b) => b@,
                Option::None => Seq::<char>::empty(),
            })
            &&& c.current_version@ == current@
        }),
{
    let latest = strip_v_prefix(release_version);
    let has_update = is_newer_version(latest.as_str(), current);
    proof {
        lemma_strip_v_idempotent(release_version@);
    }
    let notes = match release_notes {
        Some(b) => b,
        None => String::new(),
    };
    let new_version = if has_update {
        Some(latest)
    } else {
        None
    };
    UpdateResult::CheckResult(
        UpdateCheckResult {
            has_update,
            new_version,
            release_notes: Some(notes),
            current_version: current.to_owned(),
        },
    )
}

/// Decides whether `new_ver` names a strictly newer semantic version than
/// `current_ver`: their `(major, minor, patch)` triples are compared
/// lexicographically.
pub fn is_newer_version(new_ver: &str, current_ver: &str) -> (r: bool)
    ensures
        r == triple_gt(spec_version_triple(new_ver@), spec_version_triple(current_ver@)),
{
    let a = version_components(new_ver);
    let b = version_components(current_ver);
    let a0 = if a.len() > 0 {
        a[0]
    } else {
        0
    };
    let a1 = if a.len() > 1 {
        a[1]
    } else {
        0
    };
    let a2 = if a.len() > 2 {
        a[2]
    } else {
        0
    };
    let b0 = if b.len() > 0 {
        b[0]
    } else {
        0
    };
    let b1 = if b.len() > 1 {
        b[1]
    } else {
        0
    };
    let b2 = if b.len() > 2 {
        b[2]
    } else {
        0
    };
    a0 > b0 || (a0 == b0 && (a1 > b1 || (a1 == b1 && a2 > b2)))
}

} // verus!
