use vstd::prelude::*;

use crate::version::chars_of;
use crate::version::parse_u32_chars;
use crate::version::spec_parse_u32;

verus! {

/// ASCII whitespace: space, tab, line feed, form feed, carriage return.
pub open spec fn is_ascii_ws(c: char) -> bool {
    c == ' ' || c == '\t' || c == '\n' || c == '\u{0C}' || c == '\r'
}

/// Case-insensitive equality of two characters, folding ASCII letters only.
pub open spec fn ascii_eq_ci(a: char, b: char) -> bool {
    a == b || ('A' <= a && a <= 'Z' && (a as u32) + 32 == (b as u32)) || ('a' <= a && a <= 'z' && (
    a as u32) == (b as u32) + 32)
}

/// `s` equals `k` up to ASCII case.
pub open spec fn matches_ci(s: Seq<char>, k: Seq<char>) -> bool {
    s.len() == k.len() && forall|i: int| 0 <= i < s.len() ==> ascii_eq_ci(s[i], k[i])
}

/// What `parse_bool` makes of `s`: the words for true and false, matched
/// without regard to case.
pub open spec fn spec_parse_bool(s: Seq<char>) -> Option<bool> {
    if matches_ci(s, "true"@) || matches_ci(s, "1"@) || matches_ci(s, "yes"@) {
        Some(true)
    } else if matches_ci(s, "false"@) || matches_ci(s, "0"@) || matches_ci(s, "no"@) {
        Some(false)
    } else {
        None
    }
}

/// How many whitespace characters `s` starts with.
pub open spec fn lead_ws(s: Seq<char>) -> int
    decreases s.len(),
{
    if s.len() > 0 && is_ascii_ws(s[0]) {
        1 + lead_ws(s.drop_first())
    } else {
        0
    }
}

/// How many whitespace characters `s` ends with.
pub open spec fn trail_ws(s: Seq<char>) -> int
    decreases s.len(),
{
    if s.len() > 0 && is_ascii_ws(s.last()) {
        1 + trail_ws(s.drop_last())
    } else {
        0
    }
}

/// `s` with leading and trailing whitespace removed.
pub open spec fn spec_trim(s: Seq<char>) -> Seq<char> {
    if lead_ws(s) == s.len() {
        Seq::empty()
    } else {
        s.subrange(lead_ws(s), s.len() - trail_ws(s))
    }
}

/// `s` with every whitespace character removed.
pub open spec fn remove_ws(s: Seq<char>) -> Seq<char>
    decreases s.len(),
{
    if s.len() == 0 {
        Seq::empty()
    } else {
        remove_ws(s.drop_last()) + (if is_ascii_ws(s.last()) {
            Seq::<char>::empty()
        } else {
            seq![s.last()]
        })
    }
}

/// What `parse_close_window_flag` makes of a positional flag: whitespace is
/// trimmed and squeezed out, the words for closing (and the close-with-MAX
/// forms) accepted without regard to case; a bare close word may also take
/// its MAX from the following argument.
pub open spec fn spec_parse_close_window_flag(flag: Seq<char>, next: Option<Seq<char>>) -> Option<
    bool,
> {
    let t = spec_trim(flag);
    if t.len() == 0 {
        None
    } else {
        let nz = remove_ws(t);
        if matches_ci(nz, "TRUE"@) || matches_ci(nz, "1"@) || matches_ci(nz, "CLOSEWINDOW"@)
            || matches_ci(nz, "CLOSEWINDOWMAX"@) || matches_ci(nz, "MAX"@) {
            Some(true)
        } else if matches_ci(nz, "FALSE"@) || matches_ci(nz, "0"@) {
            Some(false)
        } else if matches_ci(t, "CLOSEWINDOW"@) && (match next {
            Option::Some(n) => matches_ci(spec_trim(n), "MAX"@),
            Option::None => false,
        }) {
            Some(true)
        } else {
            None
        }
    }
}

/// Reads whether one character is ASCII whitespace.
fn char_is_ws(c: char) -> (r: bool)
    ensures
        r == is_ascii_ws(c),
{
    c == ' ' || c == '\t' || c == '\n' || c == '\u{0C}' || c == '\r'
}

/// Compares two characters up to ASCII case.
fn char_eq_ci(a: char, b: char) -> (r: bool)
    ensures
        r == ascii_eq_ci(a, b),
{
    a == b || ('A' <= a && a <= 'Z' && (a as u32) + 32 == (b as u32)) || ('a' <= a && a <= 'z' && (
    a as u32) == (b as u32) + 32)
}

/// Compares a character vector with a keyword up to ASCII case.
fn vec_matches_ci(cs: &Vec<char>, k: &str) -> (r: bool)
    ensures
        r == matches_ci(cs@, k@),
{
    let kn = k.unicode_len();
    if cs.len() != kn {
        return false;
    }
    let mut i: usize = 0;
    while i < kn
        invariant
            kn == k@.len(),
            cs@.len() == kn,
            i <= kn,
            forall|j: int| 0 <= j < i ==> ascii_eq_ci(cs@[j], k@[j]),
        decreases kn - i,
    {
        if !char_eq_ci(cs[i], k.get_char(i)) {
            return false;
        }
        i = i + 1;
    }
    true
}

/// Parses a boolean word: `true`, `1` and `yes` mean true; `false`, `0` and
/// `no` mean false; case does not matter; anything else is nothing.
pub fn parse_bool(s: &str) -> (r: Option<bool>)
    ensures
        r == spec_parse_bool(s@),
{
    let cs = chars_of(s);
    if vec_matches_ci(&cs, "true") || vec_matches_ci(&cs, "1") || vec_matches_ci(&cs, "yes") {
        Some(true)
    } else if vec_matches_ci(&cs, "false") || vec_matches_ci(&cs, "0") || vec_matches_ci(
        &cs,
        "no",
    ) {
        Some(false)
    } else {
        None
    }
}

proof fn lemma_lead_ws_at(s: Seq<char>, k: int)
    requires
        0 <= k <= s.len(),
        forall|j: int| 0 <= j < k ==> is_ascii_ws(s[j]),
        k < s.len() ==> !is_ascii_ws(s[k]),
    ensures
        lead_ws(s) == k,
    decreases k,
{
    if k == 0 {
    } else {
        assert forall|j: int| 0 <= j < k - 1 implies is_ascii_ws(s.drop_first()[j]) by {
            assert(s.drop_first()[j] == s[j + 1]);
        }
        if k - 1 < s.drop_first().len() {
            assert(s.drop_first()[k - 1] == s[k]);
        }
        lemma_lead_ws_at(s.drop_first(), k - 1);
    }
}

proof fn lemma_trail_ws_at(s: Seq<char>, k: int)
    requires
        0 <= k <= s.len(),
        forall|j: int| s.len() - k <= j < s.len() ==> is_ascii_ws(s[j]),
        k < s.len() ==> !is_ascii_ws(s[s.len() - k - 1]),
    ensures
        trail_ws(s) == k,
    decreases k,
{
    if k == 0 {
    } else {
        assert(is_ascii_ws(s.last()));
        assert forall|j: int|
            s.drop_last().len() - (k - 1) <= j < s.drop_last().len() implies is_ascii_ws(
            s.drop_last()[j],
        ) by {
            assert(s.drop_last()[j] == s[j]);
        }
        if k - 1 < s.drop_last().len() {
            assert(s.drop_last()[s.drop_last().len() - (k - 1) - 1] == s[s.len() - k - 1]);
        }
        lemma_trail_ws_at(s.drop_last(), k - 1);
    }
}

/// Trims ASCII whitespace from both ends.
fn trim_chars(cs: &Vec<char>) -> (r: Vec<char>)
    ensures
        r@ == spec_trim(cs@),
{
    let n = cs.len();
    let mut lead: usize = 0;
    while lead < n && char_is_ws(cs[lead])
        invariant
            n == cs@.len(),
            lead <= n,
            forall|j: int| 0 <= j < lead ==> is_ascii_ws(cs@[j]),
        decreases n - lead,
    {
        lead = lead + 1;
    }
    proof {
        lemma_lead_ws_at(cs@, lead as int);
    }
    if lead >= n {
        proof {
            assert(spec_trim(cs@) =~= Seq::<char>::empty());
        }
        return Vec::new();
    }
    let mut trail: usize = 0;
    while trail < n && char_is_ws(cs[n - 1 - trail])
        invariant
            n == cs@.len(),
            trail <= n,
            forall|j: int| n - trail <= j < n ==> is_ascii_ws(cs@[j]),
        decreases n - trail,
    {
        trail = trail + 1;
    }
    proof {
        lemma_trail_ws_at(cs@, trail as int);
        assert(!is_ascii_ws(cs@[lead as int]));
        if (lead as int) > cs@.len() - trail - 1 {
            assert(is_ascii_ws(cs@[lead as int]));
        }
    }
    let mut r: Vec<char> = Vec::new();
    let mut i: usize = lead;
    let stop: usize = n - trail;
    while i < stop
        invariant
            n == cs@.len(),
            lead <= i <= stop,
            stop == n - trail,
            r@.len() == i - lead,
            forall|j: int| 0 <= j < r@.len() ==> r@[j] == cs@[lead + j],
        decreases stop - i,
    {
        r.push(cs[i]);
        i = i + 1;
    }
    proof {
        assert(r@ =~= cs@.subrange(lead as int, n - trail));
    }
    r
}

/// Removes every ASCII whitespace character.
fn remove_ws_chars(cs: &Vec<char>) -> (r: Vec<char>)
    ensures
        r@ == remove_ws(cs@),
{
    let n = cs.len();
    let mut r: Vec<char> = Vec::new();
    let mut i: usize = 0;
    while i < n
        invariant
            n == cs@.len(),
            i <= n,
            r@ == remove_ws(cs@.take(i as int)),
        decreases n - i,
    {
        proof {
            assert(cs@.take(i + 1).drop_last() =~= cs@.take(i as int));
            assert(cs@.take(i + 1).last() == cs@[i as int]);
        }
        if !char_is_ws(cs[i]) {
            r.push(cs[i]);
        }
        i = i + 1;
    }
    proof {
        assert(cs@.take(n as int) =~= cs@);
    }
    r
}

/// Parses the positional close-window flag, kept for launch compatibility:
/// `TRUE`, `1`, `CLOSEWINDOW`, `CLOSEWINDOWMAX` and `MAX` (in any case,
/// inner whitespace ignored) close; `FALSE` and `0` do not; a bare
/// `CLOSEWINDOW` may also take a following `MAX` argument.
pub fn parse_close_window_flag(flag: &str, next: Option<&str>) -> (r: Option<bool>)
    ensures
        r == spec_parse_close_window_flag(
            flag@,
            match next {
                Option::Some(n) => Option::Some(n@),
                Option::None => Option::None,
            },
        ),
{
    let cs = chars_of(flag);
    let t = trim_chars(&cs);
    if t.len() == 0 {
        return None;
    }
    let nz = remove_ws_chars(&t);
    if vec_matches_ci(&nz, "TRUE") || vec_matches_ci(&nz, "1") || vec_matches_ci(&nz, "CLOSEWINDOW")
        || vec_matches_ci(&nz, "CLOSEWINDOWMAX") || vec_matches_ci(&nz, "MAX") {
        return Some(true);
    }
    if vec_matches_ci(&nz, "FALSE") || vec_matches_ci(&nz, "0") {
        return Some(false);
    }
    if vec_matches_ci(&t, "CLOSEWINDOW") {
        match next {
            Some(next_arg) => {
                let ncs = chars_of(next_arg);
                let nt = trim_chars(&ncs);
                if vec_matches_ci(&nt, "MAX") {
                    return Some(true);
                }
            },
            None => {},
        }
    }
    None
}

/// How many times `c` occurs in `s`.
pub open spec fn count_char(s: Seq<char>, c: char) -> int
    decreases s.len(),
{
    if s.len() == 0 {
        0
    } else {
        count_char(s.drop_last(), c) + if s.last() == c {
            1int
        } else {
            0int
        }
    }
}

/// The index of the first occurrence of `c` in `s`, or -1.
pub open spec fn first_char(s: Seq<char>, c: char) -> int
    decreases s.len(),
{
    if s.len() == 0 {
        -1
    } else if s[0] == c {
        0
    } else {
        let r = first_char(s.drop_first(), c);
        if r == -1 {
            -1
        } else {
            r + 1
        }
    }
}

proof fn lemma_count_char_zero(s: Seq<char>, c: char)
    requires
        count_char(s, c) == 0,
    ensures
        forall|j: int| 0 <= j < s.len() ==> s[j] != c,
    decreases s.len(),
{
    if s.len() > 0 {
        assert(count_char(s.drop_last(), c) >= 0) by {
            lemma_count_char_nonneg(s.drop_last(), c);
        }
        lemma_count_char_zero(s.drop_last(), c);
        assert(forall|j: int| 0 <= j < s.len() - 1 ==> s[j] == s.drop_last()[j]);
    }
}

proof fn lemma_count_char_nonneg(s: Seq<char>, c: char)
    ensures
        count_char(s, c) >= 0,
    decreases s.len(),
{
    if s.len() > 0 {
        lemma_count_char_nonneg(s.drop_last(), c);
    }
}

proof fn lemma_first_char_at(s: Seq<char>, c: char, k: int)
    requires
        0 <= k < s.len(),
        s[k] == c,
        forall|j: int| 0 <= j < k ==> s[j] != c,
    ensures
        first_char(s, c) == k,
    decreases k,
{
    if k > 0 {
        assert forall|j: int| 0 <= j < k - 1 implies s.drop_first()[j] != c by {
            assert(s.drop_first()[j] == s[j + 1]);
        }
        assert(s.drop_first()[k - 1] == s[k]);
        lemma_first_char_at(s.drop_first(), c, k - 1);
    }
}

/// What `parse_resolution` makes of `s`: a width and a height joined by a
/// single `x`, both plain numbers.
pub open spec fn spec_parse_resolution(s: Seq<char>) -> Option<(u32, u32)> {
    if count_char(s, 'x') == 1 {
        let f = first_char(s, 'x');
        match (spec_parse_u32(s.take(f)), spec_parse_u32(s.skip(f + 1))) {
            (Option::Some(w), Option::Some(h)) => Some((w, h)),
            _ => None,
        }
    } else {
        None
    }
}

/// Parses a `WIDTHxHEIGHT` resolution string.
pub fn parse_resolution(s: &str) -> (r: Option<(u32, u32)>)
    ensures
        r == spec_parse_resolution(s@),
{
    let cs = chars_of(s);
    let n = cs.len();
    let mut count: usize = 0;
    let mut first: usize = 0;
    let mut i: usize = 0;
    while i < n
        invariant
            n == cs@.len(),
            i <= n,
            count == count_char(cs@.take(i as int), 'x'),
            count <= i,
            count > 0 ==> 0 <= first < i && cs@[first as int] == 'x' && (forall|j: int|
                0 <= j < first ==> cs@[j] != 'x'),
        decreases n - i,
    {
        proof {
            assert(cs@.take(i + 1).drop_last() =~= cs@.take(i as int));
            assert(cs@.take(i + 1).last() == cs@[i as int]);
        }
        if cs[i] == 'x' {
            if count == 0 {
                proof {
                    lemma_count_char_zero(cs@.take(i as int), 'x');
                    assert(forall|j: int| 0 <= j < i ==> cs@.take(i as int)[j] == cs@[j]);
                }
                first = i;
            }
            count = count + 1;
        }
        i = i + 1;
    }
    proof {
        assert(cs@.take(n as int) =~= cs@);
    }
    if count != 1 {
        return None;
    }
    proof {
        lemma_first_char_at(cs@, 'x', first as int);
    }
    let mut before: Vec<char> = Vec::new();
    let mut j: usize = 0;
    while j < first
        invariant
            n == cs@.len(),
            first < n,
            j <= first,
            before@.len() == j,
            forall|q: int| 0 <= q < j ==> before@[q] == cs@[q],
        decreases first - j,
    {
        before.push(cs[j]);
        j = j + 1;
    }
    let mut after: Vec<char> = Vec::new();
    let mut q: usize = first + 1;
    while q < n
        invariant
            n == cs@.len(),
            first < n,
            first + 1 <= q <= n,
            after@.len() == q - first - 1,
            forall|t: int| 0 <= t < after@.len() ==> after@[t] == cs@[first + 1 + t],
        decreases n - q,
    {
        after.push(cs[q]);
        q = q + 1;
    }
    proof {
        assert(before@ =~= cs@.take(first as int));
        assert(after@ =~= cs@.skip(first + 1));
    }
    let w = match parse_u32_chars(&before) {
        Some(w) => w,
        None => {
            return None;
        },
    };
    let h = match parse_u32_chars(&after) {
        Some(h) => h,
        None => {
            return None;
        },
    };
    Some((w, h))
}

/// The launch configuration read from the command line. Numeric overlay
/// settings (line width and opacities) are kept as the raw text given on
/// the command line; the GUI layer parses and range-checks them.
pub struct LaunchConfig {
    pub image_path: Option<String>,
    pub window_mode: Option<String>,
    pub close_existing_windows: Option<bool>,
    pub metadata: Option<String>,
    pub peaking_enabled: Option<bool>,
    pub peaking_line_width: Option<String>,
    pub peaking_color: Option<String>,
    pub peaking_opacity: Option<String>,
    pub peaking_blink: Option<bool>,
    pub grid_enabled: Option<bool>,
    pub grid_pattern: Option<String>,
    pub grid_opacity: Option<String>,
    pub show_metadata: Option<bool>,
}

/// The mathematical shape of a launch configuration.
pub struct LaunchConfigModel {
    pub image_path: Option<Seq<char>>,
    pub window_mode: Option<Seq<char>>,
    pub close_existing_windows: Option<bool>,
    pub metadata: Option<Seq<char>>,
    pub peaking_enabled: Option<bool>,
    pub peaking_line_width: Option<Seq<char>>,
    pub peaking_color: Option<Seq<char>>,
    pub peaking_opacity: Option<Seq<char>>,
    pub peaking_blink: Option<bool>,
    pub grid_enabled: Option<bool>,
    pub grid_pattern: Option<Seq<char>>,
    pub grid_opacity: Option<Seq<char>>,
    pub show_metadata: Option<bool>,
}

/// The text of an optional string.
pub open spec fn opt_view(o: Option<String>) -> Option<Seq<char>> {
    match o {
        Option::Some(s) => Option::Some(s@),
        Option::None => Option::None,
    }
}

impl View for LaunchConfig {
    type V = LaunchConfigModel;

    open spec fn view(&self) -> LaunchConfigModel {
        LaunchConfigModel {
            image_path: opt_view(self.image_path),
            window_mode: opt_view(self.window_mode),
            close_existing_windows: self.close_existing_windows,
            metadata: opt_view(self.metadata),
            peaking_enabled: self.peaking_enabled,
            peaking_line_width: opt_view(self.peaking_line_width),
            peaking_color: opt_view(self.peaking_color),
            peaking_opacity: opt_view(self.peaking_opacity),
            peaking_blink: self.peaking_blink,
            grid_enabled: self.grid_enabled,
            grid_pattern: opt_view(self.grid_pattern),
            grid_opacity: opt_view(self.grid_opacity),
            show_metadata: self.show_metadata,
        }
    }
}

/// The configuration with nothing set.
pub open spec fn empty_config_model() -> LaunchConfigModel {
    LaunchConfigModel {
        image_path: Option::None,
        window_mode: Option::None,
        close_existing_windows: Option::None,
        metadata: Option::None,
        peaking_enabled: Option::None,
        peaking_line_width: Option::None,
        peaking_color: Option::None,
        peaking_opacity: Option::None,
        peaking_blink: Option::None,
        grid_enabled: Option::None,
        grid_pattern: Option::None,
        grid_opacity: Option::None,
        show_metadata: Option::None,
    }
}

impl Default for LaunchConfig {
    /// The configuration with nothing set.
    fn default() -> (r: LaunchConfig)
        ensures
            r@ == empty_config_model(),
    {
        LaunchConfig {
            image_path: None,
            window_mode: None,
            close_existing_windows: None,
            metadata: None,
            peaking_enabled: None,
            peaking_line_width: None,
            peaking_color: None,
            peaking_opacity: None,
            peaking_blink: None,
            grid_enabled: None,
            grid_pattern: None,
            grid_opacity: None,
            show_metadata: None,
        }
    }
}

/// The text of each argument.
pub open spec fn string_views(args: Seq<String>) -> Seq<Seq<char>> {
    args.map_values(|s: String| s@)
}

/// `v` is one of the accepted grid pattern names.
pub open spec fn valid_grid_pattern(v: Seq<char>) -> bool {
    v == "3x3"@ || v == "gold"@ || v == "4x4"@ || v == "8x8"@
}

/// One pass of the `--key value` argument walk from position `i`: known
/// flags consume their value when one follows, and any other argument that
/// does not look like a flag feeds the positional image path, window mode
/// and close-windows slots, in that order. `pe[j]` says whether argument
/// `j`, read as a path, names an existing file.
pub open spec fn spec_from_args(
    args: Seq<Seq<char>>,
    pe: Seq<bool>,
    i: int,
    cfg: LaunchConfigModel,
) -> LaunchConfigModel
    decreases args.len() - i,
{
    if i < 0 || i >= args.len() {
        cfg
    } else {
        let arg = args[i];
        let has_next = i + 1 < args.len();
        let ni = if i + 2 <= args.len() {
            i + 2
        } else {
            args.len() as int
        };
        if arg == "--image"@ {
            if has_next {
                spec_from_args(
                    args,
                    pe,
                    ni,
                    if pe[i + 1] {
                        LaunchConfigModel { image_path: Option::Some(args[i + 1]), ..cfg }
                    } else {
                        cfg
                    },
                )
            } else {
                spec_from_args(args, pe, i + 1, cfg)
            }
        } else if arg == "--window-mode"@ {
            if has_next {
                spec_from_args(
                    args,
                    pe,
                    ni,
                    LaunchConfigModel { window_mode: Option::Some(args[i + 1]), ..cfg },
                )
            } else {
                spec_from_args(args, pe, i + 1, cfg)
            }
        } else if arg == "--close-windows"@ {
            if has_next {
                spec_from_args(
                    args,
                    pe,
                    ni,
                    LaunchConfigModel {
                        close_existing_windows: spec_parse_bool(args[i + 1]),
                        ..cfg
                    },
                )
            } else {
                spec_from_args(args, pe, i + 1, cfg)
            }
        } else if arg == "--metadata"@ {
            if has_next {
                spec_from_args(
                    args,
                    pe,
                    ni,
                    LaunchConfigModel { metadata: Option::Some(args[i + 1]), ..cfg },
                )
            } else {
                spec_from_args(args, pe, i + 1, cfg)
            }
        } else if arg == "--peaking-enabled"@ {
            if has_next {
                spec_from_args(
                    args,
                    pe,
                    ni,
                    LaunchConfigModel { peaking_enabled: spec_parse_bool(args[i + 1]), ..cfg },
                )
            } else {
                spec_from_args(args, pe, i + 1, cfg)
            }
        } else if arg == "--peaking-line-width"@ {
            if has_next {
                spec_from_args(
                    args,
                    pe,
                    ni,
                    LaunchConfigModel { peaking_line_width: Option::Some(args[i + 1]), ..cfg },
                )
            } else {
                spec_from_args(args, pe, i + 1, cfg)
            }
        } else if arg == "--peaking-color"@ {
            if has_next {
                spec_from_args(
                    args,
                    pe,
                    ni,
                    LaunchConfigModel { peaking_color: Option::Some(args[i + 1]), ..cfg },
                )
            } else {
                spec_from_args(args, pe, i + 1, cfg)
            }
        } else if arg == "--peaking-opacity"@ {
            if has_next {
                spec_from_args(
                    args,
                    pe,
                    ni,
                    LaunchConfigModel { peaking_opacity: Option::Some(args[i + 1]), ..cfg },
                )
            } else {
                spec_from_args(args, pe, i + 1, cfg)
            }
        } else if arg == "--peaking-blink"@ {
            if has_next {
                spec_from_args(
                    args,
                    pe,
                    ni,
                    LaunchConfigModel { peaking_blink: spec_parse_bool(args[i + 1]), ..cfg },
                )
            } else {
                spec_from_args(args, pe, i + 1, cfg)
            }
        } else if arg == "--grid-enabled"@ {
            if has_next {
                spec_from_args(
                    args,
                    pe,
                    ni,
                    LaunchConfigModel { grid_enabled: spec_parse_bool(args[i + 1]), ..cfg },
                )
            } else {
                spec_from_args(args, pe, i + 1, cfg)
            }
        } else if arg == "--grid-pattern"@ {
            if has_next {
                spec_from_args(
                    args,
                    pe,
                    ni,
                    if valid_grid_pattern(args[i + 1]) {
                        LaunchConfigModel { grid_pattern: Option::Some(args[i + 1]), ..cfg }
                    } else {
                        cfg
                    },
                )
            } else {
                spec_from_args(args, pe, i + 1, cfg)
            }
        } else if arg == "--grid-opacity"@ {
            if has_next {
                spec_from_args(
                    args,
                    pe,
                    ni,
                    LaunchConfigModel { grid_opacity: Option::Some(args[i + 1]), ..cfg },
                )
            } else {
                spec_from_args(args, pe, i + 1, cfg)
            }
        } else if arg == "--show-metadata"@ {
            if has_next {
                spec_from_args(
                    args,
                    pe,
                    ni,
                    LaunchConfigModel { show_metadata: spec_parse_bool(args[i + 1]), ..cfg },
                )
            } else {
                spec_from_args(args, pe, i + 1, cfg)
            }
        } else {
            let cfg2 = if !crate::cancel::is_prefix("--"@, arg) {
                if cfg.image_path is None && pe[i] {
                    LaunchConfigModel { image_path: Option::Some(arg), ..cfg }
                } else if cfg.image_path is Some && cfg.window_mode is None {
                    LaunchConfigModel { window_mode: Option::Some(arg), ..cfg }
                } else if cfg.window_mode is Some && cfg.close_existing_windows is None {
                    LaunchConfigModel {
                        close_existing_windows: spec_parse_close_window_flag(
                            arg,
                            if has_next {
                                Option::Some(args[i + 1])
                            } else {
                                Option::None
                            },
                        ),
                        ..cfg
                    }
                } else {
                    cfg
                }
            } else {
                cfg
            };
            spec_from_args(args, pe, i + 1, cfg2)
        }
    }
}

/// The two strings are equal.
fn str_is(s: &String, k: &str) -> (r: bool)
    ensures
        r == (s@ == k@),
{
    let ks = k.to_owned();
    *s == ks
}

impl LaunchConfig {
    /// Walks the launch arguments as given to the process (the leading
    /// program name is skipped), `--key value` pairs first and the
    /// positional image path, window mode and close flag for
    /// compatibility. `path_exists[j]` must say whether argument `j`, read
    /// as a file-system path, names an existing file; the walk itself never
    /// touches the disk.
    pub fn from_args(args: &Vec<String>, path_exists: &Vec<bool>) -> (r: LaunchConfig)
        requires
            args@.len() == path_exists@.len(),
        ensures
            r@ == spec_from_args(string_views(args@), path_exists@, 1, empty_config_model()),
    {
        let ghost sv = string_views(args@);
        let ghost target = spec_from_args(sv, path_exists@, 1, empty_config_model());
        let mut cfg = LaunchConfig::default();
        let n = args.len();
        let mut i: usize = 1;
        while i < n
            invariant
                n == args@.len(),
                args@.len() == path_exists@.len(),
                sv == string_views(args@),
                target == spec_from_args(sv, path_exists@, 1, empty_config_model()),
                spec_from_args(sv, path_exists@, i as int, cfg@) == target,
            decreases n - i,
        {
            let ghost i0 = i as int;
            let ghost cfg0 = cfg@;
            proof {
                assert(sv[i0] == args@[i0]@);
                if i0 + 1 < sv.len() {
                    assert(sv[i0 + 1] == args@[i0 + 1]@);
                }
            }
            let has_next = i + 1 < n;
            if str_is(&args[i], "--image") {
                if has_next {
                    if path_exists[i + 1] {
                        cfg.image_path = Some(args[i + 1].clone());
                    }
                    i = i + 2;
                } else {
                    i = i + 1;
                }
            } else if str_is(&args[i], "--window-mode") {
                if has_next {
                    cfg.window_mode = Some(args[i + 1].clone());
                    i = i + 2;
                } else {
                    i = i + 1;
                }
            } else if str_is(&args[i], "--close-windows") {
                if has_next {
                    cfg.close_existing_windows = parse_bool(args[i + 1].as_str());
                    i = i + 2;
                } else {
                    i = i + 1;
                }
            } else if str_is(&args[i], "--metadata") {
                if has_next {
                    cfg.metadata = Some(args[i + 1].clone());
                    i = i + 2;
                } else {
                    i = i + 1;
                }
            } else if str_is(&args[i], "--peaking-enabled") {
                if has_next {
                    cfg.peaking_enabled = parse_bool(args[i + 1].as_str());
                    i = i + 2;
                } else {
                    i = i + 1;
                }
            } else if str_is(&args[i], "--peaking-line-width") {
                if has_next {
                    cfg.peaking_line_width = Some(args[i + 1].clone());
                    i = i + 2;
                } else {
                    i = i + 1;
                }
            } else if str_is(&args[i], "--peaking-color") {
                if has_next {
                    cfg.peaking_color = Some(args[i + 1].clone());
                    i = i + 2;
                } else {
                    i = i + 1;
                }
            } else if str_is(&args[i], "--peaking-opacity") {
                if has_next {
                    cfg.peaking_opacity = Some(args[i + 1].clone());
                    i = i + 2;
                } else {
                    i = i + 1;
                }
            } else if str_is(&args[i], "--peaking-blink") {
                if has_next {
                    cfg.peaking_blink = parse_bool(args[i + 1].as_str());
                    i = i + 2;
                } else {
                    i = i + 1;
                }
            } else if str_is(&args[i], "--grid-enabled") {
                if has_next {
                    cfg.grid_enabled = parse_bool(args[i + 1].as_str());
                    i = i + 2;
                } else {
                    i = i + 1;
                }
            } else if str_is(&args[i], "--grid-pattern") {
                if has_next {
                    let v = &args[i + 1];
                    if str_is(v, "3x3") || str_is(v, "gold") || str_is(v, "4x4") || str_is(
                        v,
                        "8x8",
                    ) {
                        cfg.grid_pattern = Some(v.clone());
                    }
                    i = i + 2;
                } else {
                    i = i + 1;
                }
            } else if str_is(&args[i], "--grid-opacity") {
                if has_next {
                    cfg.grid_opacity = Some(args[i + 1].clone());
                    i = i + 2;
                } else {
                    i = i + 1;
                }
            } else if str_is(&args[i], "--show-metadata") {
                if has_next {
                    cfg.show_metadata = parse_bool(args[i + 1].as_str());
                    i = i + 2;
                } else {
                    i = i + 1;
                }
            } else {
                if !crate::cancel::str_starts_with(args[i].as_str(), "--") {
                    if cfg.image_path.is_none() && path_exists[i] {
                        cfg.image_path = Some(args[i].clone());
                    } else if cfg.image_path.is_some() && cfg.window_mode.is_none() {
                        cfg.window_mode = Some(args[i].clone());
                    } else if cfg.window_mode.is_some() && cfg.close_existing_windows.is_none() {
                        let next: Option<&str> = if has_next {
                            Some(args[i + 1].as_str())
                        } else {
                            None
                        };
                        cfg.close_existing_windows = parse_close_window_flag(
                            args[i].as_str(),
                            next,
                        );
                    }
                }
                i = i + 1;
            }
            proof {
                assert(spec_from_args(sv, path_exists@, i0, cfg0) == spec_from_args(
                    sv,
                    path_exists@,
                    i as int,
                    cfg@,
                ));
            }
        }
        cfg
    }
}

/// Reads the image path set by the launch arguments, if any.
pub fn get_launch_image_path(args: &Vec<String>, path_exists: &Vec<bool>) -> (r: Option<String>)
    requires
        args@.len() == path_exists@.len(),
    ensures
        opt_view(r) == spec_from_args(
            string_views(args@),
            path_exists@,
            1,
            empty_config_model(),
        ).image_path,
{
    LaunchConfig::from_args(args, path_exists).image_path
}

/// Reads the window mode set by the launch arguments, if any.
pub fn get_launch_window_mode(args: &Vec<String>, path_exists: &Vec<bool>) -> (r: Option<String>)
    requires
        args@.len() == path_exists@.len(),
    ensures
        opt_view(r) == spec_from_args(
            string_views(args@),
            path_exists@,
            1,
            empty_config_model(),
        ).window_mode,
{
    LaunchConfig::from_args(args, path_exists).window_mode
}

} // verus!
