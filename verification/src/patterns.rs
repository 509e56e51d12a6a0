//! The ignore-pattern compiler. A pattern string is a pipe-separated list of
//! segments; each segment is trimmed of surrounding whitespace, empty segments
//! are dropped, segments containing `*` or `?` become anchored regular
//! expressions, and the remaining segments are matched literally.

use vstd::prelude::*;

use crate::text::{chars_to_string, str_to_chars};

verus! {

/// The whitespace that is trimmed from pattern segments: the Unicode
/// `White_Space` set, as `char::is_whitespace` defines it.
pub open spec fn is_space(c: char) -> bool {
    let u = c as u32;
    ||| (9 <= u && u <= 13)
    ||| u == 32
    ||| u == 0x85
    ||| u == 0xA0
    ||| u == 0x1680
    ||| (0x2000 <= u && u <= 0x200A)
    ||| u == 0x2028
    ||| u == 0x2029
    ||| u == 0x202F
    ||| u == 0x205F
    ||| u == 0x3000
}

/// Splitting a pattern on `|`, as `split` does: `n` separators give `n + 1`
/// segments, so an empty pattern is one empty segment, and separators at the
/// ends give empty segments there.
pub open spec fn spec_split_segments(p: Seq<char>) -> Seq<Seq<char>>
    decreases p.len(),
{
    if p.len() == 0 {
        seq![Seq::<char>::empty()]
    } else if p[0] == '|' {
        seq![Seq::<char>::empty()] + spec_split_segments(p.drop_first())
    } else {
        let rest = spec_split_segments(p.drop_first());
        seq![seq![p[0]] + rest[0]] + rest.drop_first()
    }
}

pub proof fn lemma_split_segments_nonempty(p: Seq<char>)
    ensures
        spec_split_segments(p).len() >= 1,
    decreases p.len(),
{
    if p.len() > 0 {
        lemma_split_segments_nonempty(p.drop_first());
    }
}

/// A sequence without separators splits into itself alone.
pub proof fn lemma_split_segments_pipe_free(p: Seq<char>)
    requires
        forall|j: int| 0 <= j < p.len() ==> p[j] != '|',
    ensures
        spec_split_segments(p) == seq![p],
    decreases p.len(),
{
    if p.len() == 0 {
        assert(spec_split_segments(p) =~~= seq![p]);
    } else {
        lemma_split_segments_pipe_free(p.drop_first());
        lemma_split_segments_nonempty(p.drop_first());
        assert(seq![p[0]] + p.drop_first() =~= p);
        assert(spec_split_segments(p) =~~= seq![p]);
    }
}

/// Splitting at the first separator: everything before it is one segment, and
/// the rest splits on its own.
pub proof fn lemma_split_segments_at_pipe(p: Seq<char>, i: int)
    requires
        0 <= i < p.len(),
        p[i] == '|',
        forall|j: int| 0 <= j < i ==> p[j] != '|',
    ensures
        spec_split_segments(p) == seq![p.take(i)] + spec_split_segments(p.skip(i + 1)),
    decreases i,
{
    if i == 0 {
        assert(p.take(0) =~= Seq::<char>::empty());
        assert(p.skip(1) =~= p.drop_first());
        assert(spec_split_segments(p) =~= seq![p.take(0)] + spec_split_segments(p.skip(1)));
    } else {
        let q = p.drop_first();
        lemma_split_segments_at_pipe(q, i - 1);
        lemma_split_segments_nonempty(q.skip(i));
        assert(q.skip(i) =~= p.skip(i + 1));
        assert(seq![p[0]] + q.take(i - 1) =~= p.take(i));
        assert((seq![q.take(i - 1)] + spec_split_segments(q.skip(i))).drop_first() =~= spec_split_segments(
            p.skip(i + 1),
        ));
        assert(spec_split_segments(p) =~= seq![p.take(i)] + spec_split_segments(p.skip(i + 1)));
    }
}

/// The segment with its leading whitespace removed.
pub open spec fn spec_trim_start(s: Seq<char>) -> Seq<char>
    decreases s.len(),
{
    if s.len() > 0 && is_space(s[0]) {
        spec_trim_start(s.drop_first())
    } else {
        s
    }
}

/// The segment with its trailing whitespace removed.
pub open spec fn spec_trim_end(s: Seq<char>) -> Seq<char>
    decreases s.len(),
{
    if s.len() > 0 && is_space(s.last()) {
        spec_trim_end(s.drop_last())
    } else {
        s
    }
}

/// The segment with whitespace removed from both ends.
pub open spec fn spec_trim(s: Seq<char>) -> Seq<char> {
    spec_trim_end(spec_trim_start(s))
}

pub proof fn lemma_trim_start_skip(s: Seq<char>, k: int)
    requires
        0 <= k <= s.len(),
        forall|j: int| 0 <= j < k ==> is_space(#[trigger] s[j]),
        k == s.len() || !is_space(s[k]),
    ensures
        spec_trim_start(s) == s.skip(k),
    decreases k,
{
    if k == 0 {
        assert(s.skip(0) =~= s);
    } else {
        assert(is_space(s[0]));
        lemma_trim_start_skip(s.drop_first(), k - 1);
        assert(s.drop_first().skip(k - 1) =~= s.skip(k));
    }
}

pub proof fn lemma_trim_end_take(s: Seq<char>, k: int)
    requires
        0 <= k <= s.len(),
        forall|j: int| k <= j < s.len() ==> is_space(#[trigger] s[j]),
        k == 0 || !is_space(s[k - 1]),
    ensures
        spec_trim_end(s) == s.take(k),
    decreases s.len() - k,
{
    if k == s.len() {
        if s.len() > 0 && is_space(s.last()) {
            assert(!is_space(s[k - 1]));
            assert(false);
        }
        assert(s.take(k) =~= s);
    } else {
        assert(is_space(s.last()));
        lemma_trim_end_take(s.drop_last(), k);
        assert(s.drop_last().take(k) =~= s.take(k));
    }
}

/// Whether a segment is a glob: it contains a wildcard character.
pub open spec fn is_glob_segment(s: Seq<char>) -> bool {
    s.contains('*') || s.contains('?')
}

/// The regex metacharacters that a glob segment escapes; `*` and `?` are not
/// among them, they translate to wildcards instead.
pub open spec fn is_regex_meta(c: char) -> bool {
    ||| c == '.'
    ||| c == '+'
    ||| c == '('
    ||| c == ')'
    ||| c == '['
    ||| c == ']'
    ||| c == '{'
    ||| c == '}'
    ||| c == '^'
    ||| c == '$'
    ||| c == '\\'
    ||| c == '|'
}

/// How one glob character reads as regex text.
pub open spec fn spec_glob_char(c: char) -> Seq<char> {
    if c == '*' {
        seq!['.', '*']
    } else if c == '?' {
        seq!['.']
    } else if is_regex_meta(c) {
        seq!['\\', c]
    } else {
        seq![c]
    }
}

/// The body of the regex a glob segment translates to.
pub open spec fn spec_glob_body(p: Seq<char>) -> Seq<char>
    decreases p.len(),
{
    if p.len() == 0 {
        Seq::<char>::empty()
    } else {
        spec_glob_body(p.drop_last()) + spec_glob_char(p.last())
    }
}

/// The anchored regex a glob segment translates to.
pub open spec fn spec_glob_to_regex(p: Seq<char>) -> Seq<char> {
    seq!['^'] + spec_glob_body(p) + seq!['$']
}

/// Translates one glob segment to the anchored regular expression that
/// matches the same names: `*` becomes `.*`, `?` becomes `.`, and every other
/// regex metacharacter is escaped so it matches itself.
pub fn glob_to_regex(pattern: &str) -> (r: String)
    ensures
        r@ == spec_glob_to_regex(pattern@),
{
    let chars = str_to_chars(pattern);
    let mut out: Vec<char> = Vec::new();
    out.push('^');
    let mut i: usize = 0;
    while i < chars.len()
        invariant
            i <= chars.len(),
            chars@ == pattern@,
            out@ == seq!['^'] + spec_glob_body(pattern@.take(i as int)),
        decreases chars.len() - i,
    {
        let c = chars[i];
        if c == '*' {
            out.push('.');
            out.push('*');
        } else if c == '?' {
            out.push('.');
        } else if c == '.' || c == '+' || c == '(' || c == ')' || c == '[' || c == ']' || c == '{'
            || c == '}' || c == '^' || c == '$' || c == '\\' || c == '|' {
            out.push('\\');
            out.push(c);
        } else {
            out.push(c);
        }
        proof {
            assert(pattern@.take(i + 1).drop_last() =~= pattern@.take(i as int));
            assert(pattern@.take(i + 1).last() == pattern@[i as int]);
            assert(out@ =~= seq!['^'] + spec_glob_body(pattern@.take(i + 1)));
        }
        i = i + 1;
    }
    proof {
        assert(pattern@.take(chars@.len() as int) =~= pattern@);
    }
    out.push('$');
    proof {
        assert(out@ =~= spec_glob_to_regex(pattern@));
    }
    chars_to_string(&out)
}

/// Whether the segment contains a wildcard character.
pub fn has_wildcard(s: &str) -> (r: bool)
    ensures
        r == is_glob_segment(s@),
{
    let len = s.unicode_len();
    let mut i: usize = 0;
    while i < len
        invariant
            i <= len,
            len == s@.len(),
            forall|j: int| 0 <= j < i ==> s@[j] != '*' && s@[j] != '?',
        decreases len - i,
    {
        let c = s.get_char(i);
        if c == '*' || c == '?' {
            return true;
        }
        i = i + 1;
    }
    false
}

/// The segment with surrounding whitespace removed.
pub fn trim_str<'a>(s: &'a str) -> (r: &'a str)
    ensures
        r@ == spec_trim(s@),
{
    let len = s.unicode_len();
    let mut start: usize = 0;
    while start < len && is_space_char(s.get_char(start))
        invariant
            start <= len,
            len == s@.len(),
            forall|j: int| 0 <= j < start ==> is_space(#[trigger] s@[j]),
        decreases len - start,
    {
        start = start + 1;
    }
    proof {
        lemma_trim_start_skip(s@, start as int);
    }
    if start == len {
        // All whitespace: the trimmed segment is empty.
        let r = s.substring_char(len, len);
        proof {
            assert(s@.skip(len as int) =~= Seq::<char>::empty());
            assert(r@ =~= spec_trim(s@));
        }
        return r;
    }
    let mut end: usize = len;
    while end > start && is_space_char(s.get_char(end - 1))
        invariant
            start <= end <= len,
            len == s@.len(),
            forall|j: int| end <= j < len ==> is_space(#[trigger] s@[j]),
        decreases end,
    {
        end = end - 1;
    }
    // The character at `start` is not whitespace, so the scan from the right
    // stops at or after it.
    proof {
        assert(!is_space(s@[start as int]));
        assert(end > start);
        let t = s@.skip(start as int);
        lemma_trim_end_take(t, end - start);
        assert(t.take(end - start) =~= s@.subrange(start as int, end as int));
    }
    let r = s.substring_char(start, end);
    proof {
        assert(r@ =~= spec_trim(s@));
    }
    r
}

/// Whether `c` is one of the whitespace characters trimmed from segments.
fn is_space_char(c: char) -> (r: bool)
    ensures
        r == is_space(c),
{
    let u = c as u32;
    (9 <= u && u <= 13) || u == 32 || u == 0x85 || u == 0xA0 || u == 0x1680 || (0x2000 <= u && u
        <= 0x200A) || u == 0x2028 || u == 0x2029 || u == 0x202F || u == 0x205F || u == 0x3000
}

/// Splits the pattern on `|` into its raw, untrimmed segments.
pub fn split_segments<'a>(s: &'a str) -> (r: Vec<&'a str>)
    ensures
        r@.len() == spec_split_segments(s@).len(),
        forall|j: int| 0 <= j < r@.len() ==> r@[j]@ == spec_split_segments(s@)[j],
{
    let len = s.unicode_len();
    let mut r: Vec<&str> = Vec::new();
    let ghost mut done: Seq<Seq<char>> = Seq::empty();
    let mut seg_start: usize = 0;
    let mut i: usize = 0;
    proof {
        assert(s@.skip(0) =~= s@);
    }
    while i < len
        invariant
            seg_start <= i <= len,
            len == s@.len(),
            forall|j: int| seg_start <= j < i ==> s@[j] != '|',
            done.len() == r@.len(),
            forall|j: int| 0 <= j < r@.len() ==> r@[j]@ == done[j],
            spec_split_segments(s@) == done + spec_split_segments(s@.skip(seg_start as int)),
        decreases len - i,
    {
        let c = s.get_char(i);
        if c == '|' {
            let seg = s.substring_char(seg_start, i);
            proof {
                let tail = s@.skip(seg_start as int);
                lemma_split_segments_at_pipe(tail, i - seg_start);
                assert(tail.take(i - seg_start) =~= seg@);
                assert(tail.skip(i - seg_start + 1) =~= s@.skip(i + 1));
                done = done.push(seg@);
                assert(spec_split_segments(s@) =~~= done + spec_split_segments(s@.skip(i + 1)));
            }
            r.push(seg);
            seg_start = i + 1;
        }
        i = i + 1;
    }
    let seg = s.substring_char(seg_start, len);
    proof {
        let tail = s@.skip(seg_start as int);
        lemma_split_segments_pipe_free(tail);
        assert(tail =~= seg@);
        assert(spec_split_segments(s@) =~~= done.push(seg@));
    }
    r.push(seg);
    r
}

/// The literal patterns among a list of raw segments: each segment is
/// trimmed, and the non-empty results without wildcards are kept, in order.
pub open spec fn literals_of(segs: Seq<Seq<char>>) -> Seq<Seq<char>>
    decreases segs.len(),
{
    if segs.len() == 0 {
        Seq::<Seq<char>>::empty()
    } else {
        let rest = literals_of(segs.drop_last());
        let t = spec_trim(segs.last());
        if t.len() > 0 && !is_glob_segment(t) {
            rest.push(t)
        } else {
            rest
        }
    }
}

/// The regexes derived from a list of raw segments: each segment is trimmed,
/// and the non-empty results with wildcards are translated, in order.
pub open spec fn glob_regexes_of(segs: Seq<Seq<char>>) -> Seq<Seq<char>>
    decreases segs.len(),
{
    if segs.len() == 0 {
        Seq::<Seq<char>>::empty()
    } else {
        let rest = glob_regexes_of(segs.drop_last());
        let t = spec_trim(segs.last());
        if t.len() > 0 && is_glob_segment(t) {
            rest.push(spec_glob_to_regex(t))
        } else {
            rest
        }
    }
}

/// The regexes a whole pattern string compiles to.
pub open spec fn spec_glob_regexes(p: Seq<char>) -> Seq<Seq<char>> {
    glob_regexes_of(spec_split_segments(p))
}

/// What a pattern string compiles to: its literal set and its regex list.
#[verifier::ext_equal]
pub struct PatternsModel {
    pub literals: Seq<Seq<char>>,
    pub globs: Seq<Seq<char>>,
}

/// The model of a compiled pattern string.
pub open spec fn spec_compile(p: Seq<char>) -> PatternsModel {
    PatternsModel {
        literals: literals_of(spec_split_segments(p)),
        globs: glob_regexes_of(spec_split_segments(p)),
    }
}

/// Whether a name matches a compiled pattern: it equals one of the literals,
/// or the combined regex matcher accepts it. Which of the two finds the match
/// first is not observable, and neither list's order matters: the literal
/// test is membership, and the glob test is over the set of regexes.
pub open spec fn model_matches(m: PatternsModel, name: Seq<char>) -> bool {
    m.literals.contains(name) || (m.globs.len() > 0 && regex_set_matches(m.globs.to_set(), name))
}

#[verifier::external_type_specification]
#[verifier::external_body]
pub struct ExRegexSet(regex::RegexSet);

/// The patterns a `regex::RegexSet` was built from.
pub uninterp spec fn regex_set_patterns(s: regex::RegexSet) -> Seq<Seq<char>>;

/// Whether any regex in a set of patterns matches a name, as
/// `regex::RegexSet::is_match` decides it: a set matches when some member
/// matches, so the answer is a function of the set of pattern strings and
/// the name alone — order and repetition among the patterns cannot show.
pub uninterp spec fn regex_set_matches(patterns: Set<Seq<char>>, name: Seq<char>) -> bool;

/// Whether the regex compiler accepts this list of patterns: acceptance is a
/// function of the pattern strings alone.
pub uninterp spec fn regex_compiles(patterns: Seq<Seq<char>>) -> bool;

/// Relies on `regex::RegexSet::new`: it succeeds or fails depending on the
/// given pattern strings alone, and on success the returned set holds
/// exactly those patterns.
#[verifier::external_body]
fn regex_set_new(patterns: &Vec<String>) -> (r: Option<regex::RegexSet>)
    ensures
        r is Some <==> regex_compiles(patterns.deep_view()),
        r matches Some(s) ==> regex_set_patterns(s) == patterns.deep_view(),
{
    regex::RegexSet::new(patterns).ok()
}

/// Relies on `regex::RegexSet::is_match`: true iff one of the set's regexes
/// matches the name; the answer depends only on which patterns the set holds
/// and on the name.
#[verifier::external_body]
fn regex_set_is_match(s: &regex::RegexSet, name: &str) -> (r: bool)
    ensures
        r == regex_set_matches(regex_set_patterns(*s).to_set(), name@),
{
    s.is_match(name)
}

/// Pre-compiled ignore patterns: literal segments for exact matching, and the
/// glob segments compiled together into one regex set.
pub struct CompiledPatterns {
    literals: Vec<String>,
    regex_set: Option<regex::RegexSet>,
    globs: Ghost<Seq<Seq<char>>>,
}

impl View for CompiledPatterns {
    type V = PatternsModel;

    closed spec fn view(&self) -> PatternsModel {
        PatternsModel { literals: self.literals.deep_view(), globs: self.globs@ }
    }
}

impl CompiledPatterns {
    /// The regex set really was built from the recorded glob patterns, and is
    /// present exactly when there are glob patterns.
    pub closed spec fn wf(&self) -> bool {
        match self.regex_set {
            Some(rs) => regex_set_patterns(rs) == self.globs@ && self.globs@.len() > 0,
            None => self.globs@.len() == 0,
        }
    }

    /// Compiles a pipe-separated pattern string: each segment is trimmed,
    /// empty segments are dropped, wildcard segments are translated to
    /// anchored regexes and compiled together, the rest are kept as literals.
    /// Compilation fails exactly when there are glob segments and the regex
    /// engine rejects their translations; the failure is reported with the
    /// offending pattern string. A pattern without glob segments always
    /// compiles.
    pub fn new(pattern: &str) -> (r: Result<CompiledPatterns, String>)
        ensures
            r matches Ok(cp) ==> cp.wf() && cp@ == spec_compile(pattern@),
            r matches Err(e) ==> e@ == "Invalid ignore pattern: "@ + pattern@,
            r is Err <==> spec_glob_regexes(pattern@).len() > 0 && !regex_compiles(
                spec_glob_regexes(pattern@),
            ),
    {
        let segments = split_segments(pattern);
        let ghost seg_views = spec_split_segments(pattern@);
        let mut literals: Vec<String> = Vec::new();
        let mut globs: Vec<String> = Vec::new();
        let mut i: usize = 0;
        proof {
            assert(seg_views.take(0) =~= Seq::<Seq<char>>::empty());
        }
        while i < segments.len()
            invariant
                i <= segments.len(),
                segments@.len() == seg_views.len(),
                forall|j: int| 0 <= j < segments@.len() ==> segments@[j]@ == seg_views[j],
                literals.deep_view() == literals_of(seg_views.take(i as int)),
                globs.deep_view() == glob_regexes_of(seg_views.take(i as int)),
            decreases segments.len() - i,
        {
            let t = trim_str(segments[i]);
            proof {
                assert(seg_views.take(i + 1).drop_last() =~= seg_views.take(i as int));
                assert(seg_views.take(i + 1).last() == seg_views[i as int]);
            }
            if t.unicode_len() == 0 {
                // An empty segment (after trimming) is dropped.
            } else if has_wildcard(t) {
                globs.push(glob_to_regex(t));
                proof {
                    assert(globs.deep_view() =~~= glob_regexes_of(seg_views.take(i + 1)));
                }
            } else {
                literals.push(t.to_owned());
                proof {
                    assert(literals.deep_view() =~~= literals_of(seg_views.take(i + 1)));
                }
            }
            proof {
                assert(literals.deep_view() =~~= literals_of(seg_views.take(i + 1)));
                assert(globs.deep_view() =~~= glob_regexes_of(seg_views.take(i + 1)));
            }
            i = i + 1;
        }
        proof {
            assert(seg_views.take(seg_views.len() as int) =~= seg_views);
        }
        if globs.is_empty() {
            let cp = CompiledPatterns {
                literals,
                regex_set: None,
                globs: Ghost(Seq::empty()),
            };
            proof {
                assert(cp@ =~~= spec_compile(pattern@));
            }
            Ok(cp)
        } else {
            match regex_set_new(&globs) {
                Some(rs) => {
                    let cp = CompiledPatterns {
                        literals,
                        regex_set: Some(rs),
                        globs: Ghost(glob_regexes_of(seg_views)),
                    };
                    proof {
                        assert(cp@ =~~= spec_compile(pattern@));
                    }
                    Ok(cp)
                },
                None => {
                    let mut e = "Invalid ignore pattern: ".to_owned();
                    e.append(pattern);
                    Err(e)
                },
            }
        }
    }

    /// Whether a name matches any compiled pattern. The literal set is
    /// checked first as a fast path; that never changes the outcome.
    pub fn matches(&self, name: &str) -> (r: bool)
        requires
            self.wf(),
        ensures
            r == model_matches(self@, name@),
    {
        let name_owned = name.to_owned();
        let mut i: usize = 0;
        while i < self.literals.len()
            invariant
                i <= self.literals.len(),
                name_owned@ == name@,
                forall|j: int| 0 <= j < i ==> self.literals@[j]@ != name@,
            decreases self.literals.len() - i,
        {
            if self.literals[i] == name_owned {
                proof {
                    assert(self@.literals[i as int] == name@);
                }
                return true;
            }
            i = i + 1;
        }
        proof {
            assert(!self@.literals.contains(name@)) by {
                if self@.literals.contains(name@) {
                    let j = choose|j: int|
                        0 <= j < self@.literals.len() && self@.literals[j] == name@;
                    assert(self.literals@[j]@ == name@);
                }
            }
        }
        match &self.regex_set {
            Some(rs) => regex_set_is_match(rs, name),
            None => false,
        }
    }
}

pub proof fn lemma_literals_of_contains(segs: Seq<Seq<char>>, x: Seq<char>)
    ensures
        literals_of(segs).contains(x) <==> (exists|i: int|
            0 <= i < segs.len() && spec_trim(#[trigger] segs[i]) == x && x.len() > 0
                && !is_glob_segment(x)),
    decreases segs.len(),
{
    if segs.len() > 0 {
        let rest_segs = segs.drop_last();
        lemma_literals_of_contains(rest_segs, x);
        let rest = literals_of(rest_segs);
        let t = spec_trim(segs.last());
        assert(segs.last() == segs[segs.len() - 1]);
        assert(forall|i: int| 0 <= i < rest_segs.len() ==> rest_segs[i] == segs[i]);
        if t.len() > 0 && !is_glob_segment(t) {
            assert(literals_of(segs) == rest.push(t));
            if literals_of(segs).contains(x) {
                let k = choose|k: int| 0 <= k < rest.push(t).len() && rest.push(t)[k] == x;
                if k < rest.len() {
                    assert(rest[k] == x);
                    assert(rest.contains(x));
                    let i = choose|i: int|
                        0 <= i < rest_segs.len() && spec_trim(rest_segs[i]) == x && x.len() > 0
                            && !is_glob_segment(x);
                    assert(spec_trim(segs[i]) == x);
                } else {
                    assert(spec_trim(segs[segs.len() - 1]) == x);
                }
            }
            if exists|i: int|
                0 <= i < segs.len() && spec_trim(#[trigger] segs[i]) == x && x.len() > 0
                    && !is_glob_segment(x) {
                let i = choose|i: int|
                    0 <= i < segs.len() && spec_trim(#[trigger] segs[i]) == x && x.len() > 0
                        && !is_glob_segment(x);
                if i < segs.len() - 1 {
                    assert(spec_trim(rest_segs[i]) == x);
                    assert(rest.contains(x));
                    let k = choose|k: int| 0 <= k < rest.len() && rest[k] == x;
                    assert(rest.push(t)[k] == x);
                } else {
                    assert(rest.push(t)[rest.len() as int] == x);
                }
                assert(literals_of(segs).contains(x));
            }
        } else {
            assert(literals_of(segs) == rest);
            if exists|i: int|
                0 <= i < segs.len() && spec_trim(#[trigger] segs[i]) == x && x.len() > 0
                    && !is_glob_segment(x) {
                let i = choose|i: int|
                    0 <= i < segs.len() && spec_trim(#[trigger] segs[i]) == x && x.len() > 0
                        && !is_glob_segment(x);
                // The last segment cannot be the witness: its trimmed form is
                // dropped or a glob, so it is not a kept literal.
                assert(i < segs.len() - 1);
                assert(spec_trim(rest_segs[i]) == x);
            }
        }
    }
}

pub proof fn lemma_glob_regexes_of_contains(segs: Seq<Seq<char>>, x: Seq<char>)
    ensures
        glob_regexes_of(segs).contains(x) <==> (exists|i: int|
            0 <= i < segs.len() && spec_trim(#[trigger] segs[i]).len() > 0 && is_glob_segment(
                spec_trim(segs[i]),
            ) && spec_glob_to_regex(spec_trim(segs[i])) == x),
    decreases segs.len(),
{
    if segs.len() > 0 {
        let rest_segs = segs.drop_last();
        lemma_glob_regexes_of_contains(rest_segs, x);
        let rest = glob_regexes_of(rest_segs);
        let t = spec_trim(segs.last());
        assert(segs.last() == segs[segs.len() - 1]);
        assert(forall|i: int| 0 <= i < rest_segs.len() ==> rest_segs[i] == segs[i]);
        if t.len() > 0 && is_glob_segment(t) {
            let g = spec_glob_to_regex(t);
            assert(glob_regexes_of(segs) == rest.push(g));
            if glob_regexes_of(segs).contains(x) {
                let k = choose|k: int| 0 <= k < rest.push(g).len() && rest.push(g)[k] == x;
                if k < rest.len() {
                    assert(rest[k] == x);
                    assert(rest.contains(x));
                    let i = choose|i: int|
                        0 <= i < rest_segs.len() && spec_trim(rest_segs[i]).len() > 0
                            && is_glob_segment(spec_trim(rest_segs[i])) && spec_glob_to_regex(
                            spec_trim(rest_segs[i]),
                        ) == x;
                    assert(spec_trim(segs[i]) == spec_trim(rest_segs[i]));
                } else {
                    assert(spec_glob_to_regex(spec_trim(segs[segs.len() - 1])) == x);
                }
            }
            if exists|i: int|
                0 <= i < segs.len() && spec_trim(#[trigger] segs[i]).len() > 0 && is_glob_segment(
                    spec_trim(segs[i]),
                ) && spec_glob_to_regex(spec_trim(segs[i])) == x {
                let i = choose|i: int|
                    0 <= i < segs.len() && spec_trim(#[trigger] segs[i]).len() > 0
                        && is_glob_segment(spec_trim(segs[i])) && spec_glob_to_regex(
                        spec_trim(segs[i]),
                    ) == x;
                if i < segs.len() - 1 {
                    assert(spec_trim(rest_segs[i]) == spec_trim(segs[i]));
                    assert(rest.contains(x));
                    let k = choose|k: int| 0 <= k < rest.len() && rest[k] == x;
                    assert(rest.push(g)[k] == x);
                } else {
                    assert(rest.push(g)[rest.len() as int] == x);
                }
                assert(glob_regexes_of(segs).contains(x));
            }
        } else {
            assert(glob_regexes_of(segs) == rest);
            if exists|i: int|
                0 <= i < segs.len() && spec_trim(#[trigger] segs[i]).len() > 0 && is_glob_segment(
                    spec_trim(segs[i]),
                ) && spec_glob_to_regex(spec_trim(segs[i])) == x {
                let i = choose|i: int|
                    0 <= i < segs.len() && spec_trim(#[trigger] segs[i]).len() > 0
                        && is_glob_segment(spec_trim(segs[i])) && spec_glob_to_regex(
                        spec_trim(segs[i]),
                    ) == x;
                assert(i < segs.len() - 1);
                assert(spec_trim(rest_segs[i]) == spec_trim(segs[i]));
            }
        }
    }
}

pub proof fn lemma_glob_regexes_of_nonempty(segs: Seq<Seq<char>>)
    ensures
        glob_regexes_of(segs).len() > 0 <==> (exists|i: int|
            0 <= i < segs.len() && spec_trim(#[trigger] segs[i]).len() > 0 && is_glob_segment(
                spec_trim(segs[i]),
            )),
    decreases segs.len(),
{
    if segs.len() > 0 {
        let rest_segs = segs.drop_last();
        lemma_glob_regexes_of_nonempty(rest_segs);
        let t = spec_trim(segs.last());
        assert(segs.last() == segs[segs.len() - 1]);
        assert(forall|i: int| 0 <= i < rest_segs.len() ==> rest_segs[i] == segs[i]);
        if t.len() > 0 && is_glob_segment(t) {
            assert(spec_trim(segs[segs.len() - 1]).len() > 0 && is_glob_segment(
                spec_trim(segs[segs.len() - 1]),
            ));
        } else {
            assert(glob_regexes_of(segs) == glob_regexes_of(rest_segs));
            if exists|i: int|
                0 <= i < segs.len() && spec_trim(#[trigger] segs[i]).len() > 0 && is_glob_segment(
                    spec_trim(segs[i]),
                ) {
                let i = choose|i: int|
                    0 <= i < segs.len() && spec_trim(#[trigger] segs[i]).len() > 0
                        && is_glob_segment(spec_trim(segs[i]));
                assert(i < segs.len() - 1);
                assert(spec_trim(rest_segs[i]) == spec_trim(segs[i]));
            }
        }
    }
}

/// A compiled pattern is a set of rules, not an ordered list: two pattern
/// strings whose raw segments are the same up to order match exactly the
/// same names.
pub proof fn lemma_segment_order_irrelevant(p1: Seq<char>, p2: Seq<char>, name: Seq<char>)
    requires
        spec_split_segments(p1).to_multiset() == spec_split_segments(p2).to_multiset(),
    ensures
        model_matches(spec_compile(p1), name) == model_matches(spec_compile(p2), name),
{
    let s1 = spec_split_segments(p1);
    let s2 = spec_split_segments(p2);
    assert forall|e: Seq<char>| s1.contains(e) implies s2.contains(e) by {
        vstd::seq_lib::to_multiset_contains(s1, e);
        vstd::seq_lib::to_multiset_contains(s2, e);
    }
    assert forall|e: Seq<char>| s2.contains(e) implies s1.contains(e) by {
        vstd::seq_lib::to_multiset_contains(s1, e);
        vstd::seq_lib::to_multiset_contains(s2, e);
    }
    lemma_literals_of_contains(s1, name);
    lemma_literals_of_contains(s2, name);
    if literals_of(s1).contains(name) {
        let i = choose|i: int|
            0 <= i < s1.len() && spec_trim(#[trigger] s1[i]) == name && name.len() > 0
                && !is_glob_segment(name);
        assert(s1.contains(s1[i]));
        let j = choose|j: int| 0 <= j < s2.len() && s2[j] == s1[i];
        assert(spec_trim(s2[j]) == name);
        assert(literals_of(s2).contains(name));
    }
    if literals_of(s2).contains(name) {
        let i = choose|i: int|
            0 <= i < s2.len() && spec_trim(#[trigger] s2[i]) == name && name.len() > 0
                && !is_glob_segment(name);
        assert(s2.contains(s2[i]));
        let j = choose|j: int| 0 <= j < s1.len() && s1[j] == s2[i];
        assert(spec_trim(s1[j]) == name);
        assert(literals_of(s1).contains(name));
    }
    assert(glob_regexes_of(s1).to_set() =~= glob_regexes_of(s2).to_set()) by {
        assert forall|x: Seq<char>|
            glob_regexes_of(s1).contains(x) == glob_regexes_of(s2).contains(x) by {
            lemma_glob_regexes_of_contains(s1, x);
            lemma_glob_regexes_of_contains(s2, x);
            if glob_regexes_of(s1).contains(x) {
                let i = choose|i: int|
                    0 <= i < s1.len() && spec_trim(#[trigger] s1[i]).len() > 0 && is_glob_segment(
                        spec_trim(s1[i]),
                    ) && spec_glob_to_regex(spec_trim(s1[i])) == x;
                assert(s1.contains(s1[i]));
                let j = choose|j: int| 0 <= j < s2.len() && s2[j] == s1[i];
                assert(spec_glob_to_regex(spec_trim(s2[j])) == x);
                assert(glob_regexes_of(s2).contains(x));
            }
            if glob_regexes_of(s2).contains(x) {
                let i = choose|i: int|
                    0 <= i < s2.len() && spec_trim(#[trigger] s2[i]).len() > 0 && is_glob_segment(
                        spec_trim(s2[i]),
                    ) && spec_glob_to_regex(spec_trim(s2[i])) == x;
                assert(s2.contains(s2[i]));
                let j = choose|j: int| 0 <= j < s1.len() && s1[j] == s2[i];
                assert(spec_glob_to_regex(spec_trim(s1[j])) == x);
                assert(glob_regexes_of(s1).contains(x));
            }
        }
    }
    lemma_glob_regexes_of_nonempty(s1);
    lemma_glob_regexes_of_nonempty(s2);
    if glob_regexes_of(s1).len() > 0 {
        let i = choose|i: int|
            0 <= i < s1.len() && spec_trim(#[trigger] s1[i]).len() > 0 && is_glob_segment(
                spec_trim(s1[i]),
            );
        assert(s1.contains(s1[i]));
        let j = choose|j: int| 0 <= j < s2.len() && s2[j] == s1[i];
        assert(spec_trim(s2[j]).len() > 0 && is_glob_segment(spec_trim(s2[j])));
        assert(glob_regexes_of(s2).len() > 0);
    }
    if glob_regexes_of(s2).len() > 0 {
        let i = choose|i: int|
            0 <= i < s2.len() && spec_trim(#[trigger] s2[i]).len() > 0 && is_glob_segment(
                spec_trim(s2[i]),
            );
        assert(s2.contains(s2[i]));
        let j = choose|j: int| 0 <= j < s1.len() && s1[j] == s2[i];
        assert(spec_trim(s1[j]).len() > 0 && is_glob_segment(spec_trim(s1[j])));
        assert(glob_regexes_of(s1).len() > 0);
    }
}

/// The pattern-compiler round trip for a single literal segment: a pattern
/// that is one trimmed, wildcard-free, non-empty segment matches exactly
/// itself; any proper extension of it does not match.
pub proof fn lemma_literal_round_trip(p: Seq<char>, x: Seq<char>)
    requires
        p.len() > 0,
        !is_glob_segment(p),
        spec_trim(p) == p,
        forall|j: int| 0 <= j < p.len() ==> p[j] != '|',
        x.len() > 0,
    ensures
        model_matches(spec_compile(p), p),
        !model_matches(spec_compile(p), p + x),
{
    lemma_split_segments_pipe_free(p);
    let segs = seq![p];
    assert(segs.drop_last() =~= Seq::<Seq<char>>::empty());
    assert(literals_of(Seq::<Seq<char>>::empty()) == Seq::<Seq<char>>::empty());
    assert(glob_regexes_of(Seq::<Seq<char>>::empty()) == Seq::<Seq<char>>::empty());
    assert(literals_of(segs) =~~= seq![p]);
    assert(glob_regexes_of(segs) =~~= Seq::<Seq<char>>::empty());
    assert(spec_compile(p).literals.contains(p)) by {
        assert(spec_compile(p).literals[0] == p);
    }
    assert((p + x).len() > p.len());
    assert(!spec_compile(p).literals.contains(p + x)) by {
        if spec_compile(p).literals.contains(p + x) {
            let j = choose|j: int|
                0 <= j < spec_compile(p).literals.len() && spec_compile(p).literals[j] == p + x;
            assert(j == 0);
        }
    }
}

} // verus!
