//! Asset references: absolute URLs, relative references and how a reference
//! is resolved against the URL of the place that names it.
//!
//! An absolute URL reads `scheme://authority/path`. A relative reference is a
//! `/`-separated path whose `.` and `..` segments are interpreted against the
//! directory of the base; a reference that starts with `/` replaces the whole
//! path of the base.

use vstd::prelude::*;
use crate::text::{contains, find, first_at, from_chars, occurs_at, to_chars};

verus! {

/// Why a reference or URL was rejected.
#[derive(Clone, Copy, Debug, PartialEq, Eq, Structural)]
pub enum UrlError {
    /// The text is empty.
    Empty,
    /// The text holds a forbidden character, names no valid scheme before
    /// `://`, or climbs above the root of its base.
    Malformed,
    /// A relative reference stands where an absolute URL is required.
    Relative,
}

/// What a well-formed reference is.
#[derive(Clone, Copy, Debug, PartialEq, Eq, Structural)]
pub enum UrlKind {
    Absolute,
    Relative,
}

pub open spec fn is_alpha(c: char) -> bool {
    ('a' <= c && c <= 'z') || ('A' <= c && c <= 'Z')
}

pub open spec fn is_digit(c: char) -> bool {
    '0' <= c && c <= '9'
}

pub open spec fn is_scheme_char(c: char) -> bool {
    is_alpha(c) || is_digit(c) || c == '+' || c == '-' || c == '.'
}

/// Characters that no URL or reference may hold: controls, the space,
/// the backslash and DEL.
pub open spec fn is_forbidden(c: char) -> bool {
    c <= ' ' || c == '\\' || c == '\u{7f}'
}

pub open spec fn well_formed(s: Seq<char>) -> bool {
    forall|i: int| 0 <= i < s.len() ==> !is_forbidden(#[trigger] s[i])
}

/// The separator between scheme and authority.
pub open spec fn scheme_sep() -> Seq<char> {
    seq![':', '/', '/']
}

pub open spec fn valid_scheme(s: Seq<char>) -> bool {
    &&& s.len() > 0
    &&& is_alpha(s[0])
    &&& forall|i: int| 0 <= i < s.len() ==> is_scheme_char(#[trigger] s[i])
}

/// Where the leftmost `://` of `s` starts.
pub open spec fn scheme_len(s: Seq<char>) -> int {
    choose|i: int| #[trigger] first_at(s, scheme_sep(), i)
}

/// `s` is a well-formed absolute URL.
pub open spec fn is_absolute(s: Seq<char>) -> bool {
    &&& well_formed(s)
    &&& contains(s, scheme_sep())
    &&& valid_scheme(s.take(scheme_len(s)))
}

/// The kind of the reference `s`, or why it is none.
pub open spec fn spec_classify(s: Seq<char>) -> Result<UrlKind, UrlError> {
    if s.len() == 0 {
        Err(UrlError::Empty)
    } else if !well_formed(s) {
        Err(UrlError::Malformed)
    } else if !contains(s, scheme_sep()) {
        Ok(UrlKind::Relative)
    } else if valid_scheme(s.take(scheme_len(s))) {
        Ok(UrlKind::Absolute)
    } else {
        Err(UrlError::Malformed)
    }
}

/// `j` is where the authority of `s` ends, the authority starting at `from`:
/// the first `/` at or after `from`, or the end of `s`.
pub open spec fn is_root_end(s: Seq<char>, from: int, j: int) -> bool {
    &&& from <= j <= s.len()
    &&& forall|k: int| from <= k < j ==> s[k] != '/'
    &&& (j == s.len() || s[j] == '/')
}

/// The length of `scheme://authority` in the absolute URL `s`.
pub open spec fn root_len(s: Seq<char>) -> int {
    choose|j: int| #[trigger] is_root_end(s, scheme_len(s) + 3, j)
}

/// The segments of `s` between its `/` characters; never empty.
pub open spec fn split(s: Seq<char>) -> Seq<Seq<char>>
    decreases s.len(),
{
    if s.len() == 0 {
        seq![Seq::<char>::empty()]
    } else {
        let init = split(s.drop_last());
        if s.last() == '/' {
            init.push(Seq::<char>::empty())
        } else {
            init.drop_last().push(init.last().push(s.last()))
        }
    }
}

/// One segment applied to a directory stack: an empty segment and `.` leave
/// it alone, `..` removes its last entry and fails on an empty stack, any
/// other segment is added.
pub open spec fn step(stack: Option<Seq<Seq<char>>>, seg: Seq<char>) -> Option<Seq<Seq<char>>> {
    match stack {
        None => None,
        Some(st) => if seg.len() == 0 || seg == seq!['.'] {
            Some(st)
        } else if seg == seq!['.', '.'] {
            if st.len() == 0 {
                None
            } else {
                Some(st.drop_last())
            }
        } else {
            Some(st.push(seg))
        },
    }
}

/// The segments `segs` applied in order, starting from `stack`.
pub open spec fn walk(stack: Option<Seq<Seq<char>>>, segs: Seq<Seq<char>>) -> Option<
    Seq<Seq<char>>,
>
    decreases segs.len(),
{
    if segs.len() == 0 {
        stack
    } else {
        step(walk(stack, segs.drop_last()), segs.last())
    }
}

/// Every segment of `stack` preceded by a `/`.
pub open spec fn render(stack: Seq<Seq<char>>) -> Seq<char>
    decreases stack.len(),
{
    if stack.len() == 0 {
        Seq::<char>::empty()
    } else {
        render(stack.drop_last()) + seq!['/'] + stack.last()
    }
}

/// The path that a directory stack stands for.
pub open spec fn path_text(stack: Seq<Seq<char>>) -> Seq<char> {
    if stack.len() == 0 {
        seq!['/']
    } else {
        render(stack)
    }
}

/// The relative reference `reference` begins at the root of its base.
pub open spec fn is_rooted(reference: Seq<char>) -> bool {
    reference.len() > 0 && reference[0] == '/'
}

/// The directory stack that the relative reference `reference` reaches from
/// the absolute URL `base`, or `None` where it climbs above the root.
pub open spec fn joined_stack(reference: Seq<char>, base: Seq<char>) -> Option<Seq<Seq<char>>> {
    let start = if is_rooted(reference) {
        Some(Seq::<Seq<char>>::empty())
    } else {
        walk(Some(Seq::<Seq<char>>::empty()), split(base.skip(root_len(base))).drop_last())
    };
    walk(start, split(reference))
}

/// The absolute URL that `reference` names when it stands in a document at
/// `base`, or the reason why it names none. `base` is an absolute URL.
pub open spec fn spec_resolve(reference: Seq<char>, base: Seq<char>) -> Result<Seq<char>, UrlError> {
    match spec_classify(reference) {
        Err(e) => Err(e),
        Ok(UrlKind::Absolute) => Ok(reference),
        Ok(UrlKind::Relative) => match joined_stack(reference, base) {
            None => Err(UrlError::Malformed),
            Some(stack) => Ok(base.take(root_len(base)) + path_text(stack)),
        },
    }
}

/// The views of the segments held in `v`.
pub open spec fn views(v: Seq<Vec<char>>) -> Seq<Seq<char>> {
    Seq::new(v.len(), |i: int| v[i]@)
}

pub open spec fn all_well_formed(stack: Seq<Seq<char>>) -> bool {
    forall|i: int| 0 <= i < stack.len() ==> well_formed(#[trigger] stack[i])
}

/// An occurrence of `needle` in `hay` has a leftmost occurrence at or before it.
pub proof fn lemma_first_exists(hay: Seq<char>, needle: Seq<char>, w: int)
    requires
        occurs_at(hay, needle, w),
    ensures
        exists|f: int| 0 <= f <= w && first_at(hay, needle, f),
    decreases w,
{
    if exists|j: int| 0 <= j < w && occurs_at(hay, needle, j) {
        let j = choose|j: int| 0 <= j < w && occurs_at(hay, needle, j);
        lemma_first_exists(hay, needle, j);
    } else {
        assert(first_at(hay, needle, w));
    }
}

/// The leftmost occurrence is unique.
pub proof fn lemma_first_unique(hay: Seq<char>, needle: Seq<char>, a: int, b: int)
    requires
        first_at(hay, needle, a),
        first_at(hay, needle, b),
    ensures
        a == b,
{
}

/// A leftmost `://` at `i` is where the scheme ends.
pub proof fn lemma_scheme_len(s: Seq<char>, i: int)
    requires
        first_at(s, scheme_sep(), i),
    ensures
        scheme_len(s) == i,
        contains(s, scheme_sep()),
{
    lemma_first_unique(s, scheme_sep(), i, scheme_len(s));
}

/// A text that holds `://` has its leftmost one at `scheme_len`.
pub proof fn lemma_scheme_found(s: Seq<char>)
    requires
        contains(s, scheme_sep()),
    ensures
        first_at(s, scheme_sep(), scheme_len(s)),
{
    let w = choose|w: int| occurs_at(s, scheme_sep(), w);
    lemma_first_exists(s, scheme_sep(), w);
}

/// The authority that starts at `from` ends somewhere.
pub proof fn lemma_root_end_exists(s: Seq<char>, from: int)
    requires
        0 <= from <= s.len(),
    ensures
        exists|j: int| is_root_end(s, from, j),
{
    lemma_root_end_from(s, from, from);
}

proof fn lemma_root_end_from(s: Seq<char>, from: int, k: int)
    requires
        0 <= from <= k <= s.len(),
        forall|m: int| from <= m < k ==> s[m] != '/',
    ensures
        exists|j: int| is_root_end(s, from, j),
    decreases s.len() - k,
{
    if k == s.len() || s[k] == '/' {
        assert(is_root_end(s, from, k));
    } else {
        lemma_root_end_from(s, from, k + 1);
    }
}

/// An end of the authority at `j` is the length of the root.
pub proof fn lemma_root_len(s: Seq<char>, j: int)
    requires
        is_root_end(s, scheme_len(s) + 3, j),
    ensures
        root_len(s) == j,
{
    let r = root_len(s);
    assert(is_root_end(s, scheme_len(s) + 3, r));
    if r < j {
        assert(s[r] == '/');
    } else if j < r {
        assert(s[j] == '/');
    }
}

pub proof fn lemma_split_nonempty(s: Seq<char>)
    ensures
        split(s).len() >= 1,
    decreases s.len(),
{
    if s.len() > 0 {
        lemma_split_nonempty(s.drop_last());
    }
}

pub proof fn lemma_split_well_formed(s: Seq<char>)
    requires
        well_formed(s),
    ensures
        all_well_formed(split(s)),
    decreases s.len(),
{
    if s.len() > 0 {
        lemma_split_nonempty(s.drop_last());
        lemma_split_well_formed(s.drop_last());
        let init = split(s.drop_last());
        assert(well_formed(init.last()));
        assert(!is_forbidden(s[s.len() - 1]));
    }
}

pub proof fn lemma_walk_none(segs: Seq<Seq<char>>)
    ensures
        walk(None, segs) is None,
    decreases segs.len(),
{
    if segs.len() > 0 {
        lemma_walk_none(segs.drop_last());
    }
}

pub proof fn lemma_walk_well_formed(stack: Seq<Seq<char>>, segs: Seq<Seq<char>>)
    requires
        all_well_formed(stack),
        all_well_formed(segs),
    ensures
        walk(Some(stack), segs) matches Some(out) ==> all_well_formed(out),
    decreases segs.len(),
{
    if segs.len() > 0 {
        lemma_walk_well_formed(stack, segs.drop_last());
        assert(well_formed(segs.last()));
    }
}

pub proof fn lemma_render_well_formed(stack: Seq<Seq<char>>)
    requires
        all_well_formed(stack),
    ensures
        well_formed(render(stack)),
        well_formed(path_text(stack)),
    decreases stack.len(),
{
    if stack.len() > 0 {
        lemma_render_well_formed(stack.drop_last());
        assert(well_formed(stack.last()));
    }
}

/// An absolute URL followed by well-formed text is an absolute URL.
pub proof fn lemma_append_absolute(base: Seq<char>, tail: Seq<char>)
    requires
        is_absolute(base),
        well_formed(tail),
    ensures
        is_absolute(base + tail),
{
    let i = scheme_len(base);
    lemma_scheme_found(base);
    let out = base + tail;
    let sep = scheme_sep();
    assert(sep.len() == 3);
    assert(occurs_at(base, sep, i));
    assert(out.subrange(i, i + sep.len()) =~= base.subrange(i, i + sep.len()));
    assert forall|j: int| 0 <= j < i implies !occurs_at(out, sep, j) by {
        assert(!occurs_at(base, sep, j));
        assert(out.subrange(j, j + sep.len()) =~= base.subrange(j, j + sep.len()));
    }
    assert(first_at(out, sep, i));
    lemma_scheme_len(out, i);
    assert(out.take(i) =~= base.take(i));
}

/// An absolute URL cut after its `://` is an absolute URL.
pub proof fn lemma_prefix_absolute(url: Seq<char>, n: int)
    requires
        is_absolute(url),
        scheme_len(url) + 3 <= n <= url.len(),
    ensures
        is_absolute(url.take(n)),
        scheme_len(url.take(n)) == scheme_len(url),
{
    let i = scheme_len(url);
    lemma_scheme_found(url);
    let out = url.take(n);
    let sep = scheme_sep();
    assert(sep.len() == 3);
    assert(occurs_at(url, sep, i));
    assert(out.subrange(i, i + sep.len()) =~= url.subrange(i, i + sep.len()));
    assert forall|j: int| 0 <= j < i implies !occurs_at(out, sep, j) by {
        assert(!occurs_at(url, sep, j));
        assert(out.subrange(j, j + sep.len()) =~= url.subrange(j, j + sep.len()));
    }
    assert(first_at(out, sep, i));
    lemma_scheme_len(out, i);
    assert(out.take(i) =~= url.take(i));
}

/// The root of an absolute URL followed by a well-formed path is an
/// absolute URL with the same scheme.
pub proof fn lemma_join_absolute(base: Seq<char>, tail: Seq<char>)
    requires
        is_absolute(base),
        well_formed(tail),
    ensures
        is_absolute(base.take(root_len(base)) + tail),
{
    lemma_scheme_found(base);
    lemma_root_end_exists(base, scheme_len(base) + 3);
    assert(is_root_end(base, scheme_len(base) + 3, root_len(base)));
    lemma_prefix_absolute(base, root_len(base));
    lemma_append_absolute(base.take(root_len(base)), tail);
}

/// A successful resolution names a well-formed absolute URL.
pub proof fn lemma_resolve_absolute(reference: Seq<char>, base: Seq<char>)
    requires
        is_absolute(base),
        spec_resolve(reference, base) is Ok,
    ensures
        is_absolute(spec_resolve(reference, base)->Ok_0),
{
    if spec_classify(reference) == Ok::<UrlKind, UrlError>(UrlKind::Relative) {
        let path = base.skip(root_len(base));
        lemma_scheme_found(base);
        lemma_root_end_exists(base, scheme_len(base) + 3);
        assert(is_root_end(base, scheme_len(base) + 3, root_len(base)));
        assert(well_formed(path)) by {
            assert forall|i: int| 0 <= i < path.len() implies !is_forbidden(#[trigger] path[i]) by {
                assert(path[i] == base[i + root_len(base)]);
            }
        }
        lemma_split_well_formed(path);
        lemma_split_nonempty(path);
        lemma_split_well_formed(reference);
        let empty = Seq::<Seq<char>>::empty();
        let dir = split(path).drop_last();
        assert(all_well_formed(dir)) by {
            assert forall|i: int| 0 <= i < dir.len() implies well_formed(#[trigger] dir[i]) by {
                assert(dir[i] == split(path)[i]);
            }
        }
        lemma_walk_well_formed(empty, dir);
        let start = if is_rooted(reference) {
            Some(empty)
        } else {
            walk(Some(empty), dir)
        };
        if start is None {
            lemma_walk_none(split(reference));
        } else {
            lemma_walk_well_formed(start->Some_0, split(reference));
            let stack = joined_stack(reference, base)->Some_0;
            lemma_render_well_formed(stack);
            lemma_join_absolute(base, path_text(stack));
        }
    }
}

/// An absolute URL resolves to itself, whatever the base.
pub proof fn lemma_resolve_unchanged(url: Seq<char>, base: Seq<char>)
    requires
        is_absolute(url),
    ensures
        spec_resolve(url, base) == Ok::<Seq<char>, UrlError>(url),
{
}

/// Resolution is idempotent: what a reference resolves to against a base
/// resolves to itself against that base.
pub proof fn lemma_resolve_idempotent(reference: Seq<char>, base: Seq<char>)
    requires
        is_absolute(base),
        spec_resolve(reference, base) is Ok,
    ensures
        spec_resolve(spec_resolve(reference, base)->Ok_0, base) == spec_resolve(reference, base),
{
    lemma_resolve_absolute(reference, base);
    lemma_resolve_unchanged(spec_resolve(reference, base)->Ok_0, base);
}

/// A well-formed absolute URL.
#[derive(Debug, PartialEq, Eq)]
pub struct AbsoluteUrl {
    text: String,
}

impl View for AbsoluteUrl {
    type V = Seq<char>;

    closed spec fn view(&self) -> Seq<char> {
        self.text@
    }
}

fn is_forbidden_char(c: char) -> (b: bool)
    ensures
        b == is_forbidden(c),
{
    c <= ' ' || c == '\\' || c == '\u{7f}'
}

fn is_alpha_char(c: char) -> (b: bool)
    ensures
        b == is_alpha(c),
{
    ('a' <= c && c <= 'z') || ('A' <= c && c <= 'Z')
}

fn is_scheme_character(c: char) -> (b: bool)
    ensures
        b == is_scheme_char(c),
{
    is_alpha_char(c) || ('0' <= c && c <= '9') || c == '+' || c == '-' || c == '.'
}

fn is_well_formed(s: &Vec<char>) -> (b: bool)
    ensures
        b == well_formed(s@),
{
    let mut i: usize = 0;
    while i < s.len()
        invariant
            i <= s.len(),
            forall|k: int| 0 <= k < i ==> !is_forbidden(#[trigger] s@[k]),
        decreases s.len() - i,
    {
        if is_forbidden_char(s[i]) {
            return false;
        }
        i += 1;
    }
    true
}

fn has_valid_scheme(s: &Vec<char>, n: usize) -> (b: bool)
    requires
        n <= s.len(),
    ensures
        b == valid_scheme(s@.take(n as int)),
{
    if n == 0 || !is_alpha_char(s[0]) {
        return false;
    }
    let mut i: usize = 0;
    while i < n
        invariant
            i <= n <= s.len(),
            forall|k: int| 0 <= k < i ==> is_scheme_char(#[trigger] s@.take(n as int)[k]),
        decreases n - i,
    {
        if !is_scheme_character(s[i]) {
            assert(s@.take(n as int)[i as int] == s@[i as int]);
            return false;
        }
        i += 1;
    }
    true
}

fn separator() -> (sep: Vec<char>)
    ensures
        sep@ == scheme_sep(),
{
    let mut sep: Vec<char> = Vec::new();
    sep.push(':');
    sep.push('/');
    sep.push('/');
    assert(sep@ =~= scheme_sep());
    sep
}

fn classify_chars(s: &Vec<char>) -> (r: Result<UrlKind, UrlError>)
    ensures
        r == spec_classify(s@),
{
    if s.len() == 0 {
        return Err(UrlError::Empty);
    }
    if !is_well_formed(s) {
        return Err(UrlError::Malformed);
    }
    let sep = separator();
    match find(s, &sep) {
        None => Ok(UrlKind::Relative),
        Some(i) => {
            proof {
                lemma_scheme_len(s@, i as int);
            }
            if has_valid_scheme(s, i) {
                Ok(UrlKind::Absolute)
            } else {
                Err(UrlError::Malformed)
            }
        },
    }
}

/// Tells what kind of reference `reference` is, or why it is none.
pub fn classify(reference: &str) -> (r: Result<UrlKind, UrlError>)
    ensures
        r == spec_classify(reference@),
{
    let s = to_chars(reference);
    classify_chars(&s)
}

fn root_end(s: &Vec<char>, from: usize) -> (j: usize)
    requires
        from <= s.len(),
    ensures
        is_root_end(s@, from as int, j as int),
{
    let mut j: usize = from;
    while j < s.len() && s[j] != '/'
        invariant
            from <= j <= s.len(),
            forall|k: int| from <= k < j ==> s@[k] != '/',
        decreases s.len() - j,
    {
        j += 1;
    }
    j
}

fn apply_segment(stack: &mut Vec<Vec<char>>, seg: Vec<char>) -> (ok: bool)
    ensures
        ok ==> step(Some(views(old(stack)@)), seg@) == Some(views(final(stack)@)),
        !ok ==> step(Some(views(old(stack)@)), seg@) is None,
{
    let ghost before = views(stack@);
    if seg.len() == 0 {
        true
    } else if seg.len() == 1 && seg[0] == '.' {
        assert(seg@ =~= seq!['.']);
        true
    } else if seg.len() == 2 && seg[0] == '.' && seg[1] == '.' {
        assert(seg@ =~= seq!['.', '.']);
        assert(seg@ != seq!['.']) by {
            assert(seq!['.'].len() == 1);
        }
        if stack.len() == 0 {
            false
        } else {
            stack.pop();
            assert(views(stack@) =~= before.drop_last());
            true
        }
    } else {
        assert(seg@ != seq!['.']) by {
            if seg@ == seq!['.'] {
                assert(seq!['.'].len() == 1);
                assert(seq!['.'][0] == '.');
            }
        }
        assert(seg@ != seq!['.', '.']) by {
            if seg@ == seq!['.', '.'] {
                assert(seq!['.', '.'].len() == 2);
                assert(seq!['.', '.'][0] == '.');
                assert(seq!['.', '.'][1] == '.');
            }
        }
        stack.push(seg);
        assert(views(stack@) =~= before.push(seg@));
        true
    }
}

/// The segments of `text` between its `/` characters.
pub fn split_segments(text: &Vec<char>) -> (segs: Vec<Vec<char>>)
    ensures
        views(segs@) == split(text@),
{
    let mut segs: Vec<Vec<char>> = Vec::new();
    let mut cur: Vec<char> = Vec::new();
    let mut k: usize = 0;
    proof {
        assert(text@.take(0) =~= Seq::<char>::empty());
        assert(views(segs@).push(cur@) =~= split(text@.take(0)));
    }
    while k < text.len()
        invariant
            k <= text.len(),
            views(segs@).push(cur@) == split(text@.take(k as int)),
        decreases text.len() - k,
    {
        let c = text[k];
        let ghost before = views(segs@);
        proof {
            let pre = text@.take(k as int);
            let now = text@.take(k + 1);
            assert(now.drop_last() =~= pre);
            assert(now.last() == c);
            assert(split(pre).last() == cur@);
            assert(split(pre).drop_last() =~= before);
        }
        if c == '/' {
            segs.push(cur);
            cur = Vec::new();
            assert(views(segs@).push(cur@) =~= split(text@.take(k + 1)));
        } else {
            cur.push(c);
            assert(views(segs@).push(cur@) =~= split(text@.take(k + 1)));
        }
        k += 1;
    }
    let ghost before = views(segs@);
    let ghost last = cur@;
    segs.push(cur);
    proof {
        assert(text@.take(text.len() as int) =~= text@);
        assert(views(segs@) =~= before.push(last));
    }
    segs
}

/// Applies the segments of `text` from position `from` on to `stack`: all
/// of them where `whole` is set, all but the last where it is not.
fn walk_text(stack: Vec<Vec<char>>, text: &Vec<char>, from: usize, whole: bool) -> (out: Option<
    Vec<Vec<char>>,
>)
    requires
        from <= text.len(),
    ensures
        match out {
            Some(o) => Some(views(o@)),
            None => None,
        } == walk(
            Some(views(stack@)),
            if whole {
                split(text@.skip(from as int))
            } else {
                split(text@.skip(from as int)).drop_last()
            },
        ),
{
    let ghost start = Some(views(stack@));
    let ghost t = text@.skip(from as int);
    let mut st = stack;
    let mut ok = true;
    let mut cur: Vec<char> = Vec::new();
    let mut k: usize = from;
    proof {
        assert(t.take(0) =~= Seq::<char>::empty());
        assert(split(t.take(0)).drop_last() =~= Seq::<Seq<char>>::empty());
    }
    while k < text.len()
        invariant
            from <= k <= text.len(),
            t == text@.skip(from as int),
            cur@ == split(t.take(k - from)).last(),
            ok ==> walk(start, split(t.take(k - from)).drop_last()) == Some(views(st@)),
            !ok ==> walk(start, split(t.take(k - from)).drop_last()) is None,
        decreases text.len() - k,
    {
        let c = text[k];
        proof {
            let pre = t.take(k - from);
            let now = t.take(k + 1 - from);
            assert(now.drop_last() =~= pre);
            assert(now.last() == c);
            lemma_split_nonempty(pre);
            let segs = split(pre);
            if c == '/' {
                assert(split(now).drop_last() =~= segs);
            } else {
                assert(split(now).drop_last() =~= segs.drop_last());
            }
        }
        if c == '/' {
            if ok {
                ok = apply_segment(&mut st, cur);
            }
            cur = Vec::new();
        } else {
            cur.push(c);
        }
        k += 1;
    }
    proof {
        assert(t.take(k - from) =~= t);
        lemma_split_nonempty(t);
    }
    if whole && ok {
        ok = apply_segment(&mut st, cur);
    }
    if ok {
        Some(st)
    } else {
        None
    }
}

/// Appends the path that `stack` stands for to `out`.
fn render_path(out: &mut Vec<char>, stack: &Vec<Vec<char>>)
    ensures
        final(out)@ == old(out)@ + path_text(views(stack@)),
{
    let ghost begin = out@;
    let ghost segs = views(stack@);
    if stack.len() == 0 {
        out.push('/');
        assert(out@ =~= begin + seq!['/']);
        return ;
    }
    let mut i: usize = 0;
    assert(out@ =~= begin + render(segs.take(0)));
    while i < stack.len()
        invariant
            i <= stack.len(),
            segs == views(stack@),
            out@ == begin + render(segs.take(i as int)),
        decreases stack.len() - i,
    {
        let ghost row = out@;
        out.push('/');
        let seg = &stack[i];
        let mut m: usize = 0;
        assert(out@ =~= row + seq!['/'] + seg@.take(0));
        while m < seg.len()
            invariant
                m <= seg.len(),
                out@ == row + seq!['/'] + seg@.take(m as int),
            decreases seg.len() - m,
        {
            out.push(seg[m]);
            assert(seg@.take(m + 1) =~= seg@.take(m as int).push(seg@[m as int]));
            m += 1;
            assert(out@ =~= row + seq!['/'] + seg@.take(m as int));
        }
        proof {
            assert(seg@.take(seg@.len() as int) =~= seg@);
            assert(segs.take(i + 1).drop_last() =~= segs.take(i as int));
            assert(segs.take(i + 1).last() == seg@);
            assert(out@ =~= begin + render(segs.take(i + 1)));
        }
        i += 1;
    }
    assert(segs.take(stack.len() as int) =~= segs);
}

/// What parsing `s` as an absolute URL gives.
pub open spec fn spec_parse_absolute(s: Seq<char>) -> Result<Seq<char>, UrlError> {
    match spec_classify(s) {
        Ok(UrlKind::Absolute) => Ok(s),
        Ok(UrlKind::Relative) => Err(UrlError::Relative),
        Err(e) => Err(e),
    }
}

/// The URL `s` read as a directory: with a `/` at its end.
pub open spec fn spec_directory(s: Seq<char>) -> Seq<char> {
    if s.len() > 0 && s.last() == '/' {
        s
    } else {
        s.push('/')
    }
}

/// The URL of `path` below the directory `url`.
pub open spec fn spec_push(url: Seq<char>, path: Seq<char>) -> Result<Seq<char>, UrlError> {
    spec_resolve(path, spec_directory(url))
}

/// The text of a parsed or resolved URL, or the error.
pub open spec fn url_view(r: Result<AbsoluteUrl, UrlError>) -> Result<Seq<char>, UrlError> {
    match r {
        Ok(u) => Ok(u@),
        Err(e) => Err(e),
    }
}

impl AbsoluteUrl {
    #[verifier::type_invariant]
    spec fn inv(&self) -> bool {
        is_absolute(self.text@)
    }

    /// Reads `text` as an absolute URL. A relative reference is refused
    /// with `UrlError::Relative`.
    pub fn parse(text: &str) -> (r: Result<AbsoluteUrl, UrlError>)
        ensures
            url_view(r) == spec_parse_absolute(text@),
    {
        match classify(text) {
            Ok(UrlKind::Absolute) => Ok(AbsoluteUrl { text: text.to_owned() }),
            Ok(UrlKind::Relative) => Err(UrlError::Relative),
            Err(e) => Err(e),
        }
    }

    /// The URL's text, which is always a well-formed absolute URL.
    pub fn as_str(&self) -> (s: &str)
        ensures
            s@ == self@,
            is_absolute(self@),
    {
        proof {
            use_type_invariant(self);
        }
        self.text.as_str()
    }

    /// This URL read as a directory.
    pub fn as_directory(&self) -> (d: AbsoluteUrl)
        ensures
            d@ == spec_directory(self@),
    {
        proof {
            use_type_invariant(self);
        }
        let mut chars = to_chars(self.text.as_str());
        let n = chars.len();
        if n > 0 && chars[n - 1] == '/' {
            self.clone()
        } else {
            chars.push('/');
            proof {
                assert(well_formed(seq!['/']));
                lemma_append_absolute(self.text@, seq!['/']);
                assert(self.text@ + seq!['/'] =~= self.text@.push('/'));
            }
            AbsoluteUrl { text: from_chars(&chars) }
        }
    }

    /// The length of the URL's scheme: where its `://` starts.
    pub fn scheme_length(&self) -> (n: usize)
        ensures
            n == scheme_len(self@),
            n + 3 <= self@.len(),
            n + 3 <= usize::MAX,
            first_at(self@, scheme_sep(), n as int),
    {
        proof {
            use_type_invariant(self);
            lemma_scheme_found(self.text@);
            assert(scheme_sep().len() == 3);
        }
        let chars = to_chars(self.text.as_str());
        let sep = separator();
        let n = match find(&chars, &sep) {
            Some(i) => i,
            None => 0,
        };
        proof {
            assert(first_at(chars@, scheme_sep(), n as int));
            assert(occurs_at(chars@, scheme_sep(), n as int));
            lemma_scheme_len(chars@, n as int);
        }
        n
    }

    /// This URL without its last `n` characters, where what is left still
    /// holds the scheme and its `://`.
    pub fn without_last(&self, n: usize) -> (r: Option<AbsoluteUrl>)
        ensures
            match r {
                Some(u) => scheme_len(self@) + 3 + n <= self@.len() && u@ == self@.take(
                    self@.len() - n,
                ),
                None => scheme_len(self@) + 3 + n > self@.len(),
            },
    {
        proof {
            use_type_invariant(self);
        }
        let chars = to_chars(self.text.as_str());
        let i = self.scheme_length();
        if n > chars.len() - (i + 3) {
            return None;
        }
        let keep = chars.len() - n;
        let mut out: Vec<char> = Vec::new();
        let mut k: usize = 0;
        while k < keep
            invariant
                k <= keep <= chars.len(),
                out@ == chars@.take(k as int),
            decreases keep - k,
        {
            out.push(chars[k]);
            assert(chars@.take(k + 1) =~= chars@.take(k as int).push(chars@[k as int]));
            k += 1;
        }
        proof {
            lemma_prefix_absolute(chars@, keep as int);
        }
        Some(AbsoluteUrl { text: from_chars(&out) })
    }

    /// The URL of `path` below this URL read as a directory.
    pub fn push(&self, path: &str) -> (r: Result<AbsoluteUrl, UrlError>)
        ensures
            url_view(r) == spec_push(self@, path@),
    {
        let dir = self.as_directory();
        resolve(path, &dir)
    }
}

impl Clone for AbsoluteUrl {
    fn clone(&self) -> (u: Self)
        ensures
            u@ == self@,
    {
        proof {
            use_type_invariant(self);
        }
        AbsoluteUrl { text: self.text.clone() }
    }
}

/// Resolves `reference`, found in a document at `base`, to an absolute URL.
///
/// An absolute reference is returned unchanged. A relative one is joined to
/// the directory of `base`. An empty reference, one with a forbidden
/// character or an invalid scheme, and one that climbs above the root are
/// refused.
pub fn resolve(reference: &str, base: &AbsoluteUrl) -> (r: Result<AbsoluteUrl, UrlError>)
    ensures
        url_view(r) == spec_resolve(reference@, base@),
{
    let chars = to_chars(reference);
    match classify_chars(&chars) {
        Err(e) => Err(e),
        Ok(UrlKind::Absolute) => Ok(AbsoluteUrl { text: reference.to_owned() }),
        Ok(UrlKind::Relative) => {
            let b = to_chars(base.as_str());
            let i = base.scheme_length();
            let root = root_end(&b, i + 3);
            proof {
                lemma_root_len(b@, root as int);
            }
            let empty: Vec<Vec<char>> = Vec::new();
            proof {
                assert(views(empty@) =~= Seq::<Seq<char>>::empty());
                lemma_walk_none(split(chars@));
            }
            let start = if chars[0] == '/' {
                Some(empty)
            } else {
                walk_text(empty, &b, root, false)
            };
            let done = match start {
                Some(st) => walk_text(st, &chars, 0, true),
                None => None,
            };
            proof {
                assert(chars@.skip(0) =~= chars@);
            }
            match done {
                None => Err(UrlError::Malformed),
                Some(stack) => {
                    let mut out: Vec<char> = Vec::new();
                    let mut k: usize = 0;
                    while k < root
                        invariant
                            k <= root <= b.len(),
                            out@ == b@.take(k as int),
                        decreases root - k,
                    {
                        out.push(b[k]);
                        assert(b@.take(k + 1) =~= b@.take(k as int).push(b@[k as int]));
                        k += 1;
                    }
                    render_path(&mut out, &stack);
                    proof {
                        lemma_resolve_absolute(reference@, base@);
                    }
                    Ok(AbsoluteUrl { text: from_chars(&out) })
                },
            }
        },
    }
}

} // verus!
