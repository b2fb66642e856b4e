//! The path model used throughout the library.
//!
//! Paths are carried as strings and read the way `std::path` reads a Unix
//! path: a leading `/` is the root component, a leading `.` segment is the
//! current-directory component, other `.` segments and empty segments
//! (repeated separators) are dropped, `..` is the parent component and every
//! other segment is a normal component.
use vstd::prelude::*;
use crate::text::chars_equal;


verus! {

/// A segment is kept when it is neither empty nor `.`.
pub open spec fn close_segment(done: Seq<Seq<char>>, cur: Seq<char>) -> Seq<Seq<char>> {
    if cur.len() > 0 && cur != seq!['.'] {
        done.push(cur)
    } else {
        done
    }
}

/// Left-to-right reading of a path: the kept segments so far and the
/// segment in progress.
pub open spec fn segment_fold(p: Seq<char>) -> (Seq<Seq<char>>, Seq<char>)
    decreases p.len(),
{
    if p.len() == 0 {
        (seq![], seq![])
    } else {
        let (done, cur) = segment_fold(p.drop_last());
        if p.last() == '/' {
            (close_segment(done, cur), seq![])
        } else {
            (done, cur.push(p.last()))
        }
    }
}

/// The non-empty, non-`.` segments of a path, in order.
pub open spec fn kept_segments(p: Seq<char>) -> Seq<Seq<char>> {
    let (done, cur) = segment_fold(p);
    close_segment(done, cur)
}

/// The path starts at the root.
pub open spec fn has_root(p: Seq<char>) -> bool {
    p.len() > 0 && p[0] == '/'
}

/// The path starts with a `.` segment (and not at the root).
pub open spec fn leading_cur(p: Seq<char>) -> bool {
    p.len() > 0 && p[0] == '.' && (p.len() == 1 || p[1] == '/')
}

/// The components of a path: `/` for the root, `.` for a leading current
/// directory, then the kept segments.
pub open spec fn components(p: Seq<char>) -> Seq<Seq<char>> {
    let head: Seq<Seq<char>> = if has_root(p) {
        seq![seq!['/']]
    } else if leading_cur(p) {
        seq![seq!['.']]
    } else {
        seq![]
    };
    head + kept_segments(p)
}

/// A component that names an entry (not the root, `.` or `..`).
pub open spec fn is_normal(c: Seq<char>) -> bool {
    c != seq!['/'] && c != seq!['.'] && c != seq!['.', '.']
}

/// `Path::file_name`: the last component when it is a normal one.
pub open spec fn file_name(p: Seq<char>) -> Option<Seq<char>> {
    let cs = components(p);
    if cs.len() > 0 && is_normal(cs.last()) {
        Some(cs.last())
    } else {
        None
    }
}

/// Index of the last `.` in `s`, or -1.
pub open spec fn last_dot(s: Seq<char>) -> int
    decreases s.len(),
{
    if s.len() == 0 {
        -1
    } else if s.last() == '.' {
        s.len() - 1
    } else {
        last_dot(s.drop_last())
    }
}

/// `Path::extension`: the part of the file name after its last `.`, unless
/// the name has no `.` or its only `.` is the first character.
pub open spec fn extension(p: Seq<char>) -> Option<Seq<char>> {
    match file_name(p) {
        Some(name) => {
            let k = last_dot(name);
            if k <= 0 {
                None
            } else {
                Some(name.subrange(k + 1, name.len() as int))
            }
        },
        None => None,
    }
}

/// `Path::starts_with`: the components of `base` are a prefix of those of `p`.
pub open spec fn starts_with(p: Seq<char>, base: Seq<char>) -> bool {
    let a = components(p);
    let b = components(base);
    b.len() <= a.len() && a.take(b.len() as int) == b
}

/// `PathBuf::push`: an absolute `rel` replaces `base`; otherwise `rel` is
/// appended, with a `/` in between unless `base` is empty or already ends
/// with one.
pub open spec fn push_path(base: Seq<char>, rel: Seq<char>) -> Seq<char> {
    if has_root(rel) {
        rel
    } else if base.len() > 0 && base.last() != '/' {
        base + seq!['/'] + rel
    } else {
        base + rel
    }
}

/// Index of the first `/` in `s`, or the length of `s`.
pub open spec fn sep_index(s: Seq<char>) -> int
    decreases s.len(),
{
    if s.len() == 0 || s[0] == '/' {
        0
    } else {
        1 + sep_index(s.drop_first())
    }
}

/// The first segment of `s`: the text before its first `/`.
pub open spec fn first_segment(s: Seq<char>) -> Seq<char> {
    s.take(sep_index(s))
}

/// The text after the first segment and the `/` that ends it (empty when
/// there is no `/`).
pub open spec fn after_first(s: Seq<char>) -> Seq<char> {
    if sep_index(s) < s.len() {
        s.skip(sep_index(s) + 1)
    } else {
        seq![]
    }
}

/// A segment that names something: neither empty nor `.`.
pub open spec fn named(seg: Seq<char>) -> bool {
    seg.len() > 0 && seg != seq!['.']
}

/// `s` after its first `k` named segments and the `/` after each.
pub open spec fn skip_named(s: Seq<char>, k: nat) -> Seq<char>
    decreases s.len(),
{
    if k == 0 || s.len() == 0 {
        s
    } else {
        proof {
            lemma_sep_index(s);
        }
        if named(first_segment(s)) {
            skip_named(after_first(s), (k - 1) as nat)
        } else {
            skip_named(after_first(s), k)
        }
    }
}

/// `s` without its leading empty and `.` segments.
pub open spec fn trim_front_segments(s: Seq<char>) -> Seq<char>
    decreases s.len(),
{
    if s.len() == 0 || named(first_segment(s)) {
        s
    } else {
        proof {
            lemma_sep_index(s);
        }
        trim_front_segments(after_first(s))
    }
}

/// Index of the last `/` in `s`, or -1.
pub open spec fn last_sep(s: Seq<char>) -> int
    decreases s.len(),
{
    if s.len() == 0 {
        -1
    } else if s.last() == '/' {
        s.len() - 1
    } else {
        last_sep(s.drop_last())
    }
}

/// `s` without its trailing empty and `.` segments.
pub open spec fn trim_back_segments(s: Seq<char>) -> Seq<char>
    decreases s.len(),
{
    if s.len() == 0 {
        s
    } else {
        let i = last_sep(s);
        proof {
            lemma_last_sep(s);
        }
        if named(s.skip(i + 1)) {
            s
        } else if i < 0 {
            seq![]
        } else {
            trim_back_segments(s.take(i))
        }
    }
}

/// The length of the text of a path's root or leading `.` component.
pub open spec fn head_len(p: Seq<char>) -> int {
    if has_root(p) || leading_cur(p) {
        1
    } else {
        0
    }
}

/// The text of `p` after its first `k` components, as
/// `Components::as_path` gives it: the rest of the text, without leading
/// and trailing empty and `.` segments (with no component consumed, the
/// root or leading `.` stays and only the end is trimmed).
pub open spec fn rest_after(p: Seq<char>, k: nat) -> Seq<char> {
    let h = head_len(p);
    let body = p.skip(h);
    if k == 0 {
        p.take(h) + trim_back_segments(body)
    } else {
        trim_back_segments(trim_front_segments(skip_named(body, (k - h) as nat)))
    }
}

/// `Path::strip_prefix`: the text of `p` after the components of `base`,
/// when `p` starts with `base`.
pub open spec fn strip_prefix(p: Seq<char>, base: Seq<char>) -> Option<Seq<char>> {
    if starts_with(p, base) {
        Some(rest_after(p, components(base).len()))
    } else {
        None
    }
}

/// Where the first `/` is.
pub proof fn lemma_sep_index(s: Seq<char>)
    ensures
        0 <= sep_index(s) <= s.len(),
        forall|t: int| 0 <= t < sep_index(s) ==> s[t] != '/',
        sep_index(s) < s.len() ==> s[sep_index(s)] == '/',
    decreases s.len(),
{
    if s.len() > 0 && s[0] != '/' {
        lemma_sep_index(s.drop_first());
        assert forall|t: int| 0 <= t < sep_index(s) implies s[t] != '/' by {
            if t > 0 {
                assert(s[t] == s.drop_first()[t - 1]);
            }
        }
    }
}

/// Where the last `/` is.
pub proof fn lemma_last_sep(s: Seq<char>)
    ensures
        -1 <= last_sep(s) < s.len(),
        last_sep(s) >= 0 ==> s[last_sep(s)] == '/',
        forall|t: int| last_sep(s) < t < s.len() ==> s[t] != '/',
    decreases s.len(),
{
    if s.len() > 0 && s.last() != '/' {
        lemma_last_sep(s.drop_last());
        assert forall|t: int| last_sep(s) < t < s.len() implies s[t] != '/' by {
            if t < s.len() - 1 {
                assert(s[t] == s.drop_last()[t]);
            }
        }
    }
}

/// Lexicographic order of character sequences by code point (the order of
/// `str`).
pub open spec fn chars_lt(a: Seq<char>, b: Seq<char>) -> bool
    decreases a.len(),
{
    if b.len() == 0 {
        false
    } else if a.len() == 0 {
        true
    } else if a[0] != b[0] {
        a[0] < b[0]
    } else {
        chars_lt(a.drop_first(), b.drop_first())
    }
}

/// The variant order of `std::path::Component`: root, current, parent, normal.
pub open spec fn component_rank(c: Seq<char>) -> int {
    if c == seq!['/'] {
        1
    } else if c == seq!['.'] {
        2
    } else if c == seq!['.', '.'] {
        3
    } else {
        4
    }
}

/// The order of `std::path::Component`.
pub open spec fn component_lt(a: Seq<char>, b: Seq<char>) -> bool {
    component_rank(a) < component_rank(b) || (component_rank(a) == component_rank(b) && chars_lt(
        a,
        b,
    ))
}

/// Lexicographic order of component lists.
pub open spec fn components_lt(a: Seq<Seq<char>>, b: Seq<Seq<char>>) -> bool
    decreases a.len(),
{
    if b.len() == 0 {
        false
    } else if a.len() == 0 {
        true
    } else if a[0] != b[0] {
        component_lt(a[0], b[0])
    } else {
        components_lt(a.drop_first(), b.drop_first())
    }
}

/// The order of `Path`: component by component.
pub open spec fn path_lt(p: Seq<char>, q: Seq<char>) -> bool {
    components_lt(components(p), components(q))
}

/// No text comes before itself.
pub proof fn lemma_chars_lt_irreflexive(a: Seq<char>)
    ensures
        !chars_lt(a, a),
    decreases a.len(),
{
    if a.len() > 0 {
        lemma_chars_lt_irreflexive(a.drop_first());
    }
}

/// The order of texts is transitive.
pub proof fn lemma_chars_lt_transitive(a: Seq<char>, b: Seq<char>, c: Seq<char>)
    requires
        chars_lt(a, b),
        chars_lt(b, c),
    ensures
        chars_lt(a, c),
    decreases a.len(),
{
    if a.len() > 0 && b.len() > 0 && c.len() > 0 && a[0] == b[0] && b[0] == c[0] {
        lemma_chars_lt_transitive(a.drop_first(), b.drop_first(), c.drop_first());
    }
}

/// Of two different texts, one comes first.
pub proof fn lemma_chars_lt_total(a: Seq<char>, b: Seq<char>)
    ensures
        a == b || chars_lt(a, b) || chars_lt(b, a),
    decreases a.len(),
{
    if a.len() > 0 && b.len() > 0 {
        if a[0] == b[0] {
            lemma_chars_lt_total(a.drop_first(), b.drop_first());
            if a.drop_first() == b.drop_first() {
                assert(a =~= seq![a[0]] + a.drop_first());
                assert(b =~= seq![b[0]] + b.drop_first());
            }
        }
    } else if a.len() == 0 && b.len() == 0 {
        assert(a =~= b);
    }
}

/// Two texts are never each before the other.
pub proof fn lemma_chars_lt_asymmetric(a: Seq<char>, b: Seq<char>)
    requires
        chars_lt(a, b),
    ensures
        !chars_lt(b, a),
{
    if chars_lt(b, a) {
        lemma_chars_lt_transitive(a, b, a);
        lemma_chars_lt_irreflexive(a);
    }
}

/// The order of components is transitive.
pub proof fn lemma_component_lt_transitive(a: Seq<char>, b: Seq<char>, c: Seq<char>)
    requires
        component_lt(a, b),
        component_lt(b, c),
    ensures
        component_lt(a, c),
{
    if component_rank(a) == component_rank(b) && component_rank(b) == component_rank(c) {
        lemma_chars_lt_transitive(a, b, c);
    }
}

/// Of two different components, one comes first.
pub proof fn lemma_component_lt_total(a: Seq<char>, b: Seq<char>)
    ensures
        a == b || component_lt(a, b) || component_lt(b, a),
{
    lemma_chars_lt_total(a, b);
}

/// No component comes before itself.
pub proof fn lemma_component_lt_irreflexive(a: Seq<char>)
    ensures
        !component_lt(a, a),
{
    lemma_chars_lt_irreflexive(a);
}

/// No component list comes before itself.
pub proof fn lemma_components_lt_irreflexive(a: Seq<Seq<char>>)
    ensures
        !components_lt(a, a),
    decreases a.len(),
{
    if a.len() > 0 {
        lemma_components_lt_irreflexive(a.drop_first());
    }
}

/// The order of component lists is transitive.
pub proof fn lemma_components_lt_transitive(a: Seq<Seq<char>>, b: Seq<Seq<char>>, c: Seq<Seq<char>>)
    requires
        components_lt(a, b),
        components_lt(b, c),
    ensures
        components_lt(a, c),
    decreases a.len(),
{
    if a.len() > 0 && b.len() > 0 && c.len() > 0 {
        if a[0] == b[0] && b[0] == c[0] {
            lemma_components_lt_transitive(a.drop_first(), b.drop_first(), c.drop_first());
        } else if a[0] != b[0] && b[0] != c[0] {
            lemma_component_lt_transitive(a[0], b[0], c[0]);
            if a[0] == c[0] {
                lemma_component_lt_irreflexive(a[0]);
            }
        }
    }
}

/// Of two different component lists, one comes first.
pub proof fn lemma_components_lt_total(a: Seq<Seq<char>>, b: Seq<Seq<char>>)
    ensures
        a == b || components_lt(a, b) || components_lt(b, a),
    decreases a.len(),
{
    if a.len() > 0 && b.len() > 0 {
        if a[0] == b[0] {
            lemma_components_lt_total(a.drop_first(), b.drop_first());
            if a.drop_first() == b.drop_first() {
                assert(a =~= seq![a[0]] + a.drop_first());
                assert(b =~= seq![b[0]] + b.drop_first());
            }
        } else {
            lemma_component_lt_total(a[0], b[0]);
        }
    } else if a.len() == 0 && b.len() == 0 {
        assert(a =~= b);
    }
}

/// `Path`'s order is a strict total order on component lists.
pub proof fn lemma_path_lt_order(p: Seq<char>, q: Seq<char>, r: Seq<char>)
    ensures
        !path_lt(p, p),
        path_lt(p, q) && path_lt(q, r) ==> path_lt(p, r),
        components(p) == components(q) || path_lt(p, q) || path_lt(q, p),
        path_lt(p, q) ==> !path_lt(q, p),
{
    lemma_components_lt_irreflexive(components(p));
    if path_lt(p, q) && path_lt(q, r) {
        lemma_components_lt_transitive(components(p), components(q), components(r));
    }
    lemma_components_lt_total(components(p), components(q));
    if path_lt(p, q) && path_lt(q, p) {
        lemma_components_lt_transitive(components(p), components(q), components(p));
    }
}

/// The order of `str` is a strict total order.
pub proof fn lemma_chars_lt_order(a: Seq<char>, b: Seq<char>, c: Seq<char>)
    ensures
        !chars_lt(a, a),
        chars_lt(a, b) && chars_lt(b, c) ==> chars_lt(a, c),
        a == b || chars_lt(a, b) || chars_lt(b, a),
        chars_lt(a, b) ==> !chars_lt(b, a),
{
    lemma_chars_lt_irreflexive(a);
    if chars_lt(a, b) && chars_lt(b, c) {
        lemma_chars_lt_transitive(a, b, c);
    }
    lemma_chars_lt_total(a, b);
    if chars_lt(a, b) {
        lemma_chars_lt_asymmetric(a, b);
    }
}

/// The components of a path.
pub fn path_components(p: &Vec<char>) -> (r: Vec<Vec<char>>)
    ensures
        r.deep_view() == components(p@),
{
    let mut done: Vec<Vec<char>> = Vec::new();
    let mut cur: Vec<char> = Vec::new();
    let mut i: usize = 0;
    while i < p.len()
        invariant
            i <= p@.len(),
            (done.deep_view(), cur@) == segment_fold(p@.take(i as int)),
        decreases p.len() - i,
    {
        assert(p@.take((i + 1) as int).drop_last() =~= p@.take(i as int));
        let c = p[i];
        if c == '/' {
            let keep = cur.len() > 0 && !(cur.len() == 1 && cur[0] == '.');
            proof {
                if cur.len() == 1 && cur[0] == '.' {
                    assert(cur@ =~= seq!['.']);
                }
            }
            if keep {
                let ghost before = done.deep_view();
                let ghost cv = cur@;
                assert(cur.deep_view() =~= cv);
                done.push(cur);
                assert(done.deep_view() =~= before.push(cv));
            }
            cur = Vec::new();
            assert(cur@ =~= seq![]);
        } else {
            cur.push(c);
        }
        i = i + 1;
    }
    assert(p@.take(p@.len() as int) =~= p@);
    let keep = cur.len() > 0 && !(cur.len() == 1 && cur[0] == '.');
    proof {
        if cur.len() == 1 && cur[0] == '.' {
            assert(cur@ =~= seq!['.']);
        }
    }
    if keep {
        let ghost before = done.deep_view();
        let ghost cv = cur@;
        assert(cur.deep_view() =~= cv);
        done.push(cur);
        assert(done.deep_view() =~= before.push(cv));
    }
    assert(done.deep_view() == kept_segments(p@));
    let mut out: Vec<Vec<char>> = Vec::new();
    if p.len() > 0 && p[0] == '/' {
        let root = vec!['/'];
        assert(root.deep_view() =~= seq!['/']);
        out.push(root);
        assert(out.deep_view() =~= seq![seq!['/']]);
    } else if p.len() > 0 && p[0] == '.' && (p.len() == 1 || p[1] == '/') {
        let cur_dir = vec!['.'];
        assert(cur_dir.deep_view() =~= seq!['.']);
        out.push(cur_dir);
        assert(out.deep_view() =~= seq![seq!['.']]);
    } else {
        assert(out.deep_view() =~= seq![]);
    }
    let ghost head = out.deep_view();
    let mut k: usize = 0;
    let n = done.len();
    while k < n
        invariant
            n == done@.len(),
            k <= n,
            out.deep_view() == head + done.deep_view().take(k as int),
        decreases n - k,
    {
        let seg = done[k].clone();
        let ghost before = out.deep_view();
        out.push(seg);
        assert(out.deep_view() =~= before.push(done.deep_view()[k as int]));
        assert(head + done.deep_view().take((k + 1) as int) =~= (head + done.deep_view().take(
            k as int,
        )).push(done.deep_view()[k as int]));
        k = k + 1;
    }
    assert(done.deep_view().take(n as int) =~= done.deep_view());
    assert(out.deep_view() =~= components(p@));
    out
}


proof fn lemma_chars_deep(v: Vec<char>)
    ensures
        v.deep_view() == v@,
{
    assert(v.deep_view() =~= v@);
}

proof fn lemma_nested_deep(v: Vec<Vec<char>>, k: int)
    requires
        0 <= k < v@.len(),
    ensures
        v.deep_view()[k] == v@[k]@,
        v.deep_view().len() == v@.len(),
{
    lemma_chars_deep(v@[k]);
}

/// Whether two character sequences are in the order of `str`.
pub fn chars_less(a: &Vec<char>, b: &Vec<char>) -> (r: bool)
    ensures
        r == chars_lt(a@, b@),
{
    let mut k: usize = 0;
    assert(a@.skip(0) =~= a@);
    assert(b@.skip(0) =~= b@);
    while k < a.len() && k < b.len() && a[k] == b[k]
        invariant
            k <= a@.len(),
            k <= b@.len(),
            chars_lt(a@, b@) == chars_lt(a@.skip(k as int), b@.skip(k as int)),
        decreases a.len() - k,
    {
        assert(a@.skip(k as int).drop_first() =~= a@.skip(k + 1));
        assert(b@.skip(k as int).drop_first() =~= b@.skip(k + 1));
        k = k + 1;
    }
    if k == b.len() {
        false
    } else if k == a.len() {
        true
    } else {
        a[k] < b[k]
    }
}

/// The rank of a component in the variant order of `std::path::Component`.
pub fn component_order(c: &Vec<char>) -> (r: u8)
    ensures
        r as int == component_rank(c@),
{
    if c.len() == 1 && c[0] == '/' {
        assert(c@ =~= seq!['/']);
        1
    } else if c.len() == 1 && c[0] == '.' {
        assert(c@ =~= seq!['.']);
        2
    } else if c.len() == 2 && c[0] == '.' && c[1] == '.' {
        assert(c@ =~= seq!['.', '.']);
        3
    } else {
        assert(c@ != seq!['/']);
        assert(c@ != seq!['.']);
        assert(c@ != seq!['.', '.']);
        4
    }
}

/// Whether two component lists are in the order of `Path`.
pub fn components_less(a: &Vec<Vec<char>>, b: &Vec<Vec<char>>) -> (r: bool)
    ensures
        r == components_lt(a.deep_view(), b.deep_view()),
{
    let ghost da = a.deep_view();
    let ghost db = b.deep_view();
    let mut k: usize = 0;
    assert(da.skip(0) =~= da);
    assert(db.skip(0) =~= db);
    loop
        invariant
            da == a.deep_view(),
            db == b.deep_view(),
            da.len() == a@.len(),
            db.len() == b@.len(),
            k <= a@.len(),
            k <= b@.len(),
            components_lt(da, db) == components_lt(da.skip(k as int), db.skip(k as int)),
        decreases a.len() - k,
    {
        if k == b.len() {
            return false;
        }
        if k == a.len() {
            return true;
        }
        proof {
            lemma_nested_deep(*a, k as int);
            lemma_nested_deep(*b, k as int);
        }
        if !chars_equal(&a[k], &b[k]) {
            let ra = component_order(&a[k]);
            let rb = component_order(&b[k]);
            return ra < rb || (ra == rb && chars_less(&a[k], &b[k]));
        }
        assert(da.skip(k as int).drop_first() =~= da.skip(k + 1));
        assert(db.skip(k as int).drop_first() =~= db.skip(k + 1));
        k = k + 1;
    }
}

/// Whether two paths are in the order of `Path` (component by component).
pub fn path_less(p: &Vec<char>, q: &Vec<char>) -> (r: bool)
    ensures
        r == path_lt(p@, q@),
{
    let a = path_components(p);
    let b = path_components(q);
    components_less(&a, &b)
}

/// `Path::starts_with` on component lists.
fn components_start_with(a: &Vec<Vec<char>>, b: &Vec<Vec<char>>) -> (r: bool)
    ensures
        r == ({
            let x = a.deep_view();
            let y = b.deep_view();
            y.len() <= x.len() && x.take(y.len() as int) == y
        }),
{
    let ghost x = a.deep_view();
    let ghost y = b.deep_view();
    if b.len() > a.len() {
        return false;
    }
    let mut k: usize = 0;
    while k < b.len()
        invariant
            x == a.deep_view(),
            y == b.deep_view(),
            x.len() == a@.len(),
            y.len() == b@.len(),
            b@.len() <= a@.len(),
            k <= b@.len(),
            forall|j: int| 0 <= j < k ==> x[j] == y[j],
        decreases b.len() - k,
    {
        proof {
            lemma_nested_deep(*a, k as int);
            lemma_nested_deep(*b, k as int);
        }
        if !chars_equal(&a[k], &b[k]) {
            assert(x.take(y.len() as int)[k as int] != y[k as int]);
            return false;
        }
        k = k + 1;
    }
    assert(x.take(y.len() as int) =~= y);
    true
}

/// `Path::starts_with`.
pub fn path_starts_with(p: &Vec<char>, base: &Vec<char>) -> (r: bool)
    ensures
        r == starts_with(p@, base@),
{
    let a = path_components(p);
    let b = path_components(base);
    components_start_with(&a, &b)
}

/// `PathBuf::push`.
pub fn push_path_chars(base: &Vec<char>, rel: &Vec<char>) -> (r: Vec<char>)
    ensures
        r@ == push_path(base@, rel@),
{
    let mut out: Vec<char> = Vec::new();
    if rel.len() > 0 && rel[0] == '/' {
        append_all(&mut out, rel);
        assert(out@ =~= rel@);
        return out;
    }
    append_all(&mut out, base);
    if base.len() > 0 && base[base.len() - 1] != '/' {
        out.push('/');
    }
    append_all(&mut out, rel);
    assert(out@ =~= push_path(base@, rel@));
    out
}

/// Appends every character of `src`.
pub fn append_all(out: &mut Vec<char>, src: &Vec<char>)
    ensures
        final(out)@ == old(out)@ + src@,
{
    let mut k: usize = 0;
    let ghost start = out@;
    while k < src.len()
        invariant
            k <= src@.len(),
            out@ == start + src@.take(k as int),
        decreases src.len() - k,
    {
        out.push(src[k]);
        assert(out@ =~= start + src@.take((k + 1) as int));
        k = k + 1;
    }
    assert(src@.take(src@.len() as int) =~= src@);
}

proof fn lemma_sep_index_at(s: Seq<char>, n: int)
    requires
        0 <= n <= s.len(),
        forall|t: int| 0 <= t < n ==> s[t] != '/',
        n == s.len() || s[n] == '/',
    ensures
        sep_index(s) == n,
{
    lemma_sep_index(s);
}

proof fn lemma_last_sep_at(s: Seq<char>, n: int)
    requires
        -1 <= n < s.len(),
        n >= 0 ==> s[n] == '/',
        forall|t: int| n < t < s.len() ==> s[t] != '/',
    ensures
        last_sep(s) == n,
{
    lemma_last_sep(s);
}

/// The end of the segment that starts at `i`: the next `/`, or the end.
fn segment_end(p: &Vec<char>, i: usize) -> (e: usize)
    requires
        i <= p@.len(),
    ensures
        i <= e <= p@.len(),
        sep_index(p@.skip(i as int)) == e - i,
        first_segment(p@.skip(i as int)) == p@.subrange(i as int, e as int),
        after_first(p@.skip(i as int)) == p@.skip(if e < p@.len() {
            e + 1
        } else {
            e as int
        }),
{
    let mut e = i;
    while e < p.len() && p[e] != '/'
        invariant
            i <= e <= p@.len(),
            forall|t: int| i <= t < e ==> p@[t] != '/',
        decreases p.len() - e,
    {
        e = e + 1;
    }
    let ghost q = p@.skip(i as int);
    proof {
        assert forall|t: int| 0 <= t < e - i implies q[t] != '/' by {
            assert(q[t] == p@[t + i]);
        }
        if e < p@.len() {
            assert(q[e - i] == p@[e as int]);
        }
        lemma_sep_index_at(q, e - i);
    }
    assert(first_segment(q) =~= p@.subrange(i as int, e as int));
    if e < p.len() {
        assert(after_first(q) =~= p@.skip(e + 1));
    } else {
        assert(after_first(q) =~= p@.skip(e as int));
    }
    e
}

/// Whether the segment that starts at `i` names something.
fn segment_named(p: &Vec<char>, i: usize) -> (r: bool)
    requires
        i <= p@.len(),
    ensures
        r == named(first_segment(p@.skip(i as int))),
{
    let e = segment_end(p, i);
    let r = e > i && !(e == i + 1 && p[i] == '.');
    proof {
        let seg = p@.subrange(i as int, e as int);
        if e == i + 1 && p@[i as int] == '.' {
            assert(seg =~= seq!['.']);
        }
        if e == i + 1 && p@[i as int] != '.' {
            assert(seg[0] != seq!['.'][0]);
            assert(seg != seq!['.']);
        }
        if e > i + 1 {
            assert(seg.len() != seq!['.'].len());
        }
        assert(first_segment(p@.skip(i as int)) == seg);
    }
    r
}

/// Skips `j` named segments of the text from `i`.
fn skip_named_from(p: &Vec<char>, i: usize, j: usize) -> (r: usize)
    requires
        i <= p@.len(),
    ensures
        i <= r <= p@.len(),
        p@.skip(r as int) == skip_named(p@.skip(i as int), j as nat),
{
    let mut at = i;
    let mut left = j;
    while left > 0 && at < p.len()
        invariant
            i <= at <= p@.len(),
            skip_named(p@.skip(i as int), j as nat) == skip_named(p@.skip(at as int), left as nat),
        decreases p.len() - at,
    {
        let named_here = segment_named(p, at);
        let e = segment_end(p, at);
        let next = if e < p.len() {
            e + 1
        } else {
            e
        };
        if named_here {
            left = left - 1;
        }
        at = next;
    }
    proof {
        if at == p@.len() {
            assert(p@.skip(at as int) =~= Seq::<char>::empty());
        }
    }
    at
}

/// Drops the empty and `.` segments at the front of the text from `i`.
fn trim_front_from(p: &Vec<char>, i: usize) -> (r: usize)
    requires
        i <= p@.len(),
    ensures
        i <= r <= p@.len(),
        p@.skip(r as int) == trim_front_segments(p@.skip(i as int)),
{
    let mut at = i;
    while at < p.len() && !segment_named(p, at)
        invariant
            i <= at <= p@.len(),
            trim_front_segments(p@.skip(i as int)) == trim_front_segments(p@.skip(at as int)),
        decreases p.len() - at,
    {
        let e = segment_end(p, at);
        at = if e < p.len() {
            e + 1
        } else {
            e
        };
    }
    proof {
        if at == p@.len() {
            assert(p@.skip(at as int) =~= Seq::<char>::empty());
        }
    }
    at
}

/// Drops the empty and `.` segments at the end of the text from `i`; the
/// result ends at the returned index.
fn trim_back_within(p: &Vec<char>, i: usize) -> (m: usize)
    requires
        i <= p@.len(),
    ensures
        i <= m <= p@.len(),
        p@.subrange(i as int, m as int) == trim_back_segments(p@.skip(i as int)),
{
    let mut m = p.len();
    let mut done = false;
    assert(p@.subrange(i as int, m as int) =~= p@.skip(i as int));
    while !done && m > i
        invariant
            i <= m <= p@.len(),
            trim_back_segments(p@.skip(i as int)) == if done {
                p@.subrange(i as int, m as int)
            } else {
                trim_back_segments(p@.subrange(i as int, m as int))
            },
        decreases m + (if done {
            0int
        } else {
            1int
        }),
    {
        let ghost x = p@.subrange(i as int, m as int);
        let mut f = m;
        while f > i && p[f - 1] != '/'
            invariant
                i <= f <= m,
                m <= p@.len(),
                forall|t: int| f <= t < m ==> p@[t] != '/',
            decreases f,
        {
            f = f - 1;
        }
        proof {
            assert forall|t: int| f - i <= t < x.len() implies x[t] != '/' by {
                assert(x[t] == p@[t + i]);
            }
            if f > i {
                assert(x[f - 1 - i] == p@[f - 1]);
            }
            lemma_last_sep_at(x, f - 1 - i);
            assert(x.skip(f - i) =~= p@.subrange(f as int, m as int));
        }
        let last_named = m > f && !(m == f + 1 && p[f] == '.');
        proof {
            let last = p@.subrange(f as int, m as int);
            if m == f + 1 && p@[f as int] == '.' {
                assert(last =~= seq!['.']);
            }
            if m == f + 1 && p@[f as int] != '.' {
                assert(last[0] != seq!['.'][0]);
                assert(last != seq!['.']);
            }
            if m > f + 1 {
                assert(last.len() != seq!['.'].len());
            }
            assert(last_named == named(last));
        }
        if last_named {
            done = true;
        } else if f == i {
            m = i;
            done = true;
            assert(p@.subrange(i as int, i as int) =~= Seq::<char>::empty());
        } else {
            m = f - 1;
            assert(x.take(f - 1 - i) =~= p@.subrange(i as int, m as int));
        }
    }
    proof {
        if !done {
            assert(p@.subrange(i as int, m as int) =~= Seq::<char>::empty());
        }
    }
    m
}

/// The characters `p[from..to]`.
fn copy_range(p: &Vec<char>, from: usize, to: usize) -> (r: Vec<char>)
    requires
        from <= to <= p@.len(),
    ensures
        r@ == p@.subrange(from as int, to as int),
{
    let mut out: Vec<char> = Vec::new();
    let mut k = from;
    while k < to
        invariant
            from <= k <= to <= p@.len(),
            out@ == p@.subrange(from as int, k as int),
        decreases to - k,
    {
        out.push(p[k]);
        assert(out@ =~= p@.subrange(from as int, k + 1));
        k = k + 1;
    }
    out
}

/// The text of `p` after its first `k` components.
fn rest_text(p: &Vec<char>, k: usize) -> (r: Vec<char>)
    ensures
        r@ == rest_after(p@, k as nat),
{
    let n = p.len();
    let h: usize = if n > 0 && (p[0] == '/' || (p[0] == '.' && (n == 1 || p[1] == '/'))) {
        1
    } else {
        0
    };
    assert(h == head_len(p@));
    if k == 0 {
        let m = trim_back_within(p, h);
        assert(p@.take(h as int) + p@.subrange(h as int, m as int) =~= p@.subrange(0, m as int));
        copy_range(p, 0, m)
    } else {
        let skipped = skip_named_from(p, h, k - h);
        let front = trim_front_from(p, skipped);
        let m = trim_back_within(p, front);
        copy_range(p, front, m)
    }
}

/// `Path::strip_prefix`.
pub fn path_strip_prefix(p: &Vec<char>, base: &Vec<char>) -> (r: Option<Vec<char>>)
    ensures
        match r {
            Some(rest) => strip_prefix(p@, base@) == Some(rest@),
            None => strip_prefix(p@, base@) is None,
        },
{
    let a = path_components(p);
    let b = path_components(base);
    if components_start_with(&a, &b) {
        Some(rest_text(p, b.len()))
    } else {
        None
    }
}

/// `Path::file_name`.
pub fn path_file_name(p: &Vec<char>) -> (r: Option<Vec<char>>)
    ensures
        match r {
            Some(name) => file_name(p@) == Some(name@),
            None => file_name(p@) is None,
        },
{
    let mut cs = path_components(p);
    let ghost d = cs.deep_view();
    if cs.len() == 0 {
        return None;
    }
    proof {
        lemma_nested_deep(cs, cs@.len() - 1);
    }
    let last = cs.pop().unwrap();
    if component_order(&last) == 4 {
        Some(last)
    } else {
        None
    }
}

/// Index of the last `.` in `s`, if any.
fn last_dot_index(s: &Vec<char>) -> (r: Option<usize>)
    ensures
        match r {
            Some(k) => last_dot(s@) == k as int && k < s@.len(),
            None => last_dot(s@) == -1,
        },
{
    let mut j: usize = s.len();
    assert(s@.take(j as int) =~= s@);
    while j > 0 && s[j - 1] != '.'
        invariant
            j <= s@.len(),
            last_dot(s@) == last_dot(s@.take(j as int)),
        decreases j,
    {
        assert(s@.take(j as int).drop_last() =~= s@.take(j - 1));
        j = j - 1;
    }
    if j == 0 {
        None
    } else {
        Some(j - 1)
    }
}

/// `Path::extension`.
pub fn path_extension(p: &Vec<char>) -> (r: Option<Vec<char>>)
    ensures
        match r {
            Some(ext) => extension(p@) == Some(ext@),
            None => extension(p@) is None,
        },
{
    match path_file_name(p) {
        None => None,
        Some(name) => {
            match last_dot_index(&name) {
                None => None,
                Some(k) => {
                    if k == 0 {
                        None
                    } else {
                        let mut ext: Vec<char> = Vec::new();
                        assert(k < name.len());
                        let mut i = k + 1;
                        while i < name.len()
                            invariant
                                k + 1 <= i <= name@.len(),
                                ext@ == name@.subrange(k + 1, i as int),
                            decreases name.len() - i,
                        {
                            ext.push(name[i]);
                            assert(ext@ =~= name@.subrange(k + 1, i + 1));
                            i = i + 1;
                        }
                        Some(ext)
                    }
                },
            }
        },
    }
}

/// Reading `p + q`, where `p` ends between segments, continues the reading
/// of `p` with that of `q`.
proof fn lemma_fold_append(p: Seq<char>, q: Seq<char>)
    requires
        segment_fold(p).1 == Seq::<char>::empty(),
    ensures
        segment_fold(p + q) == (segment_fold(p).0 + segment_fold(q).0, segment_fold(q).1),
    decreases q.len(),
{
    if q.len() == 0 {
        assert(p + q =~= p);
        assert(segment_fold(p).0 + segment_fold(q).0 =~= segment_fold(p).0);
    } else {
        assert((p + q).drop_last() =~= p + q.drop_last());
        lemma_fold_append(p, q.drop_last());
        let (dq, cq) = segment_fold(q.drop_last());
        let dp = segment_fold(p).0;
        if q.last() == '/' {
            assert(close_segment(dp + dq, cq) =~= dp + close_segment(dq, cq));
        }
    }
}

/// The kept segments of `a + b`, where `a` ends with `/`.
proof fn lemma_kept_after_separator(a: Seq<char>, b: Seq<char>)
    requires
        a.len() > 0,
        a.last() == '/',
    ensures
        kept_segments(a + b) == kept_segments(a) + kept_segments(b),
{
    assert(a.drop_last() + seq!['/'] =~= a);
    let (d, c) = segment_fold(a.drop_last());
    assert(segment_fold(a) == (close_segment(d, c), Seq::<char>::empty()));
    assert(kept_segments(a) == close_segment(d, c));
    lemma_fold_append(a, b);
    let (db, cb) = segment_fold(b);
    assert(close_segment(kept_segments(a) + db, cb) =~= kept_segments(a) + close_segment(db, cb));
}

/// A text without `/` is read as one unfinished segment.
proof fn lemma_fold_no_separator(s: Seq<char>)
    requires
        !s.contains('/'),
    ensures
        segment_fold(s) == (Seq::<Seq<char>>::empty(), s),
    decreases s.len(),
{
    if s.len() > 0 {
        let t = s.drop_last();
        assert(!t.contains('/')) by {
            if t.contains('/') {
                let j = choose|j: int| 0 <= j < t.len() && t[j] == '/';
                assert(s[j] == '/');
            }
        }
        lemma_fold_no_separator(t);
        assert(s.last() != '/') by {
            assert(s[s.len() - 1] == s.last());
        }
        assert(t.push(s.last()) =~= s);
    } else {
        assert(s =~= Seq::<char>::empty());
    }
}

/// Appending a separator to a path that does not end with one keeps its
/// segments.
proof fn lemma_kept_after_separator_self(j: Seq<char>)
    requires
        j.len() > 0,
        j.last() != '/',
    ensures
        kept_segments(j + seq!['/']) == kept_segments(j),
{
    assert((j + seq!['/']).drop_last() =~= j);
    let (d, c) = segment_fold(j);
    assert(segment_fold(j + seq!['/']) == (close_segment(d, c), Seq::<char>::empty()));
    assert(close_segment(close_segment(d, c), Seq::<char>::empty()) =~= close_segment(d, c));
}

/// Pushing a relative path onto a non-empty base: the components are the
/// base's followed by the pushed path's segments.
pub proof fn lemma_push_components(base: Seq<char>, rel: Seq<char>)
    requires
        base.len() > 0,
        !has_root(rel),
    ensures
        components(push_path(base, rel)) == components(base) + kept_segments(rel),
{
    let x = push_path(base, rel);
    if base.last() != '/' {
        let sep = base + seq!['/'];
        assert(x == sep + rel);
        lemma_kept_after_separator(sep, rel);
        lemma_kept_after_separator_self(base);
        assert(x[0] == base[0]);
        if base.len() > 1 {
            assert(x[1] == base[1]);
        } else {
            assert(x[1] == '/');
        }
    } else {
        assert(x == base + rel);
        lemma_kept_after_separator(base, rel);
        assert(x[0] == base[0]);
        if base.len() > 1 {
            assert(x[1] == base[1]);
        }
    }
    assert(components(x) =~= components(base) + kept_segments(rel));
}

/// The segments kept from a text without `/`: itself when it names
/// something, nothing otherwise.
proof fn lemma_kept_single(seg: Seq<char>)
    requires
        !seg.contains('/'),
    ensures
        kept_segments(seg) == (if named(seg) {
            seq![seg]
        } else {
            Seq::<Seq<char>>::empty()
        }),
{
    lemma_fold_no_separator(seg);
    if named(seg) {
        assert(Seq::<Seq<char>>::empty().push(seg) =~= seq![seg]);
    }
}

/// A text with a `/` at the end keeps the segments of what precedes it.
proof fn lemma_kept_trailing_separator(a: Seq<char>)
    ensures
        kept_segments(a + seq!['/']) == kept_segments(a),
{
    assert((a + seq!['/']).drop_last() =~= a);
    let (d, c) = segment_fold(a);
    assert(segment_fold(a + seq!['/']) == (close_segment(d, c), Seq::<char>::empty()));
    assert(close_segment(close_segment(d, c), Seq::<char>::empty()) =~= close_segment(d, c));
}

proof fn lemma_no_separator_in_take(s: Seq<char>, n: int)
    requires
        0 <= n <= s.len(),
        forall|t: int| 0 <= t < n ==> s[t] != '/',
    ensures
        !s.take(n).contains('/'),
{
    if s.take(n).contains('/') {
        let j = choose|j: int| 0 <= j < s.take(n).len() && s.take(n)[j] == '/';
        assert(s[j] == '/');
    }
}

proof fn lemma_no_separator_in_skip(s: Seq<char>, n: int)
    requires
        0 <= n <= s.len(),
        forall|t: int| n <= t < s.len() ==> s[t] != '/',
    ensures
        !s.skip(n).contains('/'),
{
    if s.skip(n).contains('/') {
        let j = choose|j: int| 0 <= j < s.skip(n).len() && s.skip(n)[j] == '/';
        assert(s[n + j] == '/');
    }
}

/// The kept segments of a text read from its front: those of its first
/// segment, then those of the rest.
proof fn lemma_kept_split_first(s: Seq<char>)
    requires
        s.len() > 0,
    ensures
        kept_segments(s) == (if named(first_segment(s)) {
            seq![first_segment(s)]
        } else {
            Seq::<Seq<char>>::empty()
        }) + kept_segments(after_first(s)),
{
    lemma_sep_index(s);
    let i = sep_index(s);
    let seg = first_segment(s);
    lemma_no_separator_in_take(s, i);
    lemma_kept_single(seg);
    lemma_kept_single(Seq::<char>::empty());
    if i < s.len() {
        let a = seg + seq!['/'];
        assert(s =~= a + after_first(s));
        lemma_kept_after_separator(a, after_first(s));
        lemma_kept_trailing_separator(seg);
    } else {
        assert(seg =~= s);
        assert(after_first(s) =~= Seq::<char>::empty());
        assert(kept_segments(s) + Seq::<Seq<char>>::empty() =~= kept_segments(s));
    }
}

/// The kept segments of a text read from its back: those before its last
/// segment, then those of the last segment.
proof fn lemma_kept_split_last(s: Seq<char>)
    requires
        s.len() > 0,
    ensures
        ({
            let i = last_sep(s);
            let before = if i >= 0 {
                s.take(i)
            } else {
                Seq::<char>::empty()
            };
            kept_segments(s) == kept_segments(before) + (if named(s.skip(i + 1)) {
                seq![s.skip(i + 1)]
            } else {
                Seq::<Seq<char>>::empty()
            })
        }),
{
    lemma_last_sep(s);
    let i = last_sep(s);
    let last = s.skip(i + 1);
    lemma_no_separator_in_skip(s, i + 1);
    lemma_kept_single(last);
    lemma_kept_single(Seq::<char>::empty());
    if i >= 0 {
        let a = s.take(i) + seq!['/'];
        assert(s =~= a + last);
        lemma_kept_after_separator(a, last);
        lemma_kept_trailing_separator(s.take(i));
    } else {
        assert(last =~= s);
        assert(Seq::<Seq<char>>::empty() + kept_segments(s) =~= kept_segments(s));
    }
}

/// Dropping leading empty and `.` segments keeps the segments; what is
/// left is empty or starts with a named segment.
proof fn lemma_trim_front_kept(s: Seq<char>)
    ensures
        kept_segments(trim_front_segments(s)) == kept_segments(s),
        trim_front_segments(s).len() == 0 || named(first_segment(trim_front_segments(s))),
    decreases s.len(),
{
    if s.len() > 0 && !named(first_segment(s)) {
        lemma_sep_index(s);
        lemma_kept_split_first(s);
        assert(Seq::<Seq<char>>::empty() + kept_segments(after_first(s)) =~= kept_segments(after_first(s)));
        lemma_trim_front_kept(after_first(s));
    }
}

/// Skipping `j` named segments skips `j` kept segments.
proof fn lemma_skip_named_kept(s: Seq<char>, j: nat)
    requires
        j <= kept_segments(s).len(),
    ensures
        kept_segments(skip_named(s, j)) == kept_segments(s).skip(j as int),
    decreases s.len(),
{
    if j == 0 {
        assert(kept_segments(s).skip(0) =~= kept_segments(s));
    } else if s.len() == 0 {
        lemma_kept_single(Seq::<char>::empty());
    } else {
        lemma_sep_index(s);
        lemma_kept_split_first(s);
        let rest = kept_segments(after_first(s));
        if named(first_segment(s)) {
            lemma_skip_named_kept(after_first(s), (j - 1) as nat);
            assert(kept_segments(s).skip(j as int) =~= rest.skip(j - 1));
        } else {
            assert(kept_segments(s) =~= rest);
            lemma_skip_named_kept(after_first(s), j);
        }
    }
}

/// Dropping trailing empty and `.` segments keeps the segments and leaves a
/// prefix of the text.
proof fn lemma_trim_back_kept(s: Seq<char>)
    ensures
        kept_segments(trim_back_segments(s)) == kept_segments(s),
        trim_back_segments(s).len() <= s.len(),
        trim_back_segments(s) == s.take(trim_back_segments(s).len() as int),
    decreases s.len(),
{
    if s.len() == 0 {
        assert(s.take(0) =~= s);
    } else {
        lemma_last_sep(s);
        lemma_kept_split_last(s);
        let i = last_sep(s);
        if named(s.skip(i + 1)) {
            assert(s.take(s.len() as int) =~= s);
        } else if i < 0 {
            lemma_kept_single(Seq::<char>::empty());
            assert(kept_segments(s) =~= Seq::<Seq<char>>::empty());
            assert(s.take(0) =~= Seq::<char>::empty());
        } else {
            lemma_trim_back_kept(s.take(i));
            assert(kept_segments(s) =~= kept_segments(s.take(i)));
            let t = trim_back_segments(s.take(i));
            assert(s.take(i).take(t.len() as int) =~= s.take(t.len() as int));
        }
    }
}

/// The body of a path, after its root or leading `.`, keeps its segments.
proof fn lemma_body_kept(p: Seq<char>)
    ensures
        kept_segments(p.skip(head_len(p))) == kept_segments(p),
{
    if has_root(p) {
        let a = seq!['/'];
        assert(p =~= a + p.skip(1));
        lemma_kept_after_separator(a, p.skip(1));
        lemma_kept_trailing_separator(Seq::<char>::empty());
        lemma_kept_single(Seq::<char>::empty());
        assert(Seq::<Seq<char>>::empty() + kept_segments(p.skip(1)) =~= kept_segments(p.skip(1)));
    } else if leading_cur(p) {
        if p.len() == 1 {
            assert(p =~= seq!['.']);
            lemma_kept_single(p);
            lemma_kept_single(Seq::<char>::empty());
            assert(p.skip(1) =~= Seq::<char>::empty());
        } else {
            let a = seq!['.', '/'];
            let b = seq!['/'];
            assert(p =~= a + p.skip(2));
            assert(p.skip(1) =~= b + p.skip(2));
            lemma_kept_after_separator(a, p.skip(2));
            lemma_kept_after_separator(b, p.skip(2));
            assert(seq!['.'] + seq!['/'] =~= a);
            lemma_kept_trailing_separator(seq!['.']);
            lemma_kept_trailing_separator(Seq::<char>::empty());
            lemma_kept_single(seq!['.']);
            lemma_kept_single(Seq::<char>::empty());
        }
    } else {
        assert(p.skip(0) =~= p);
    }
}

/// The text of a path after its first `k` components (at least one) is
/// relative and holds exactly the remaining components.
pub proof fn lemma_rest_after(p: Seq<char>, k: nat)
    requires
        1 <= k <= components(p).len(),
    ensures
        !has_root(rest_after(p, k)),
        kept_segments(rest_after(p, k)) == components(p).skip(k as int),
{
    let h = head_len(p);
    let body = p.skip(h);
    lemma_body_kept(p);
    let kept = kept_segments(p);
    assert(components(p).len() == h + kept.len());
    assert(components(p).skip(k as int) =~= kept.skip(k - h));
    lemma_skip_named_kept(body, (k - h) as nat);
    let x = skip_named(body, (k - h) as nat);
    lemma_trim_front_kept(x);
    let y = trim_front_segments(x);
    lemma_trim_back_kept(y);
    let z = trim_back_segments(y);
    if z.len() > 0 {
        assert(y.len() > 0);
        lemma_sep_index(y);
        assert(sep_index(y) > 0);
        assert(y[0] != '/');
        assert(z[0] == y.take(z.len() as int)[0]);
    }
}

} // verus!
