//! The file manager's path handling: resolving a path that a user typed
//! against an account's document root without ever leaving it, and the small
//! formatters and checks around it.
use vstd::prelude::*;
use crate::error::ApiError;
use crate::provision::{join, join_path};
use crate::text::{
    chars_eq, chars_of, contains_char, extend_chars, lemma_split_char_len, lemma_split_char_step,
    lemma_last_index_of, last_index_of, parse_unsigned, rfind_char, slice_vec, split_char, split_on,
    str_eq, string_of, trim, trim_chars, trim_str,
};

verus! {

// ================================================================ requests

/// Where a listing, a read, a download or an upload looks; the
/// administrator names the account whose document root it is.
pub struct PathQ {
    pub path: Option<String>,
    pub account_id: Option<i64>,
}

/// A file's new contents.
pub struct WriteBody {
    pub path: String,
    pub content: String,
    pub account_id: Option<i64>,
}

/// A directory or an empty file to create under `path`.
pub struct CreateBody {
    pub path: String,
    pub name: String,
    pub account_id: Option<i64>,
}

/// A rename or a copy.
pub struct MoveBody {
    pub from: String,
    pub to: String,
    pub account_id: Option<i64>,
}

/// A file or a directory to delete.
pub struct DeleteBody {
    pub path: String,
    pub account_id: Option<i64>,
}

/// New permissions, in octal, for a file or a directory.
pub struct ChmodBody {
    pub path: String,
    pub mode: String,
    pub account_id: Option<i64>,
}

// ================================================================ components

/// Marker for the root component of an absolute path.
pub open spec fn root_marker() -> Seq<char> {
    seq!['/']
}

/// Marker for a leading `.` component.
pub open spec fn cur_marker() -> Seq<char> {
    seq!['.']
}

/// A segment that names something: not empty and not `.`.
pub open spec fn is_named(s: Seq<char>) -> bool {
    s.len() > 0 && s != seq!['.']
}

/// The named segments, in order.
pub open spec fn named_segments(segs: Seq<Seq<char>>) -> Seq<Seq<char>>
    decreases segs.len(),
{
    if segs.len() == 0 {
        Seq::empty()
    } else {
        named_segments(segs.drop_last()) + (if is_named(segs.last()) {
            seq![segs.last()]
        } else {
            Seq::<Seq<char>>::empty()
        })
    }
}

/// `Path::components` on Unix: a root if the path is absolute, a `.` if it
/// starts with one, then the named segments (repeated `/` and inner `.` are
/// dropped).
pub open spec fn components(p: Seq<char>) -> Seq<Seq<char>> {
    let segs = split_char(p, '/');
    let root = if p.len() > 0 && p[0] == '/' {
        seq![root_marker()]
    } else {
        Seq::empty()
    };
    let cur = if !(p.len() > 0 && p[0] == '/') && segs[0] == seq!['.'] {
        seq![cur_marker()]
    } else {
        Seq::empty()
    };
    root + cur + named_segments(segs)
}

/// `Path::starts_with`: the components of `base` begin those of `p`.
pub open spec fn path_starts_with_spec(p: Seq<char>, base: Seq<char>) -> bool {
    let a = components(p);
    let b = components(base);
    b.len() <= a.len() && a.subrange(0, b.len() as int) == b
}

proof fn lemma_named_append(x: Seq<Seq<char>>, y: Seq<Seq<char>>)
    ensures
        named_segments(x + y) == named_segments(x) + named_segments(y),
    decreases y.len(),
{
    if y.len() == 0 {
        assert(x + y =~= x);
        assert(named_segments(y) =~= Seq::<Seq<char>>::empty());
        assert(named_segments(x) + named_segments(y) =~= named_segments(x));
    } else {
        assert((x + y).drop_last() =~= x + y.drop_last());
        lemma_named_append(x, y.drop_last());
    }
}

proof fn lemma_split_append(a: Seq<char>, b: Seq<char>, c: char)
    ensures
        split_char(a + seq![c] + b, c) == split_char(a, c) + split_char(b, c),
    decreases a.len(),
{
    if !a.contains(c) {
        lemma_split_char_step(a, b, c);
        crate::text::lemma_split_char_none(a, c);
    } else {
        crate::text::lemma_first_index_of(a, c);
        let i = crate::text::first_index_of(a, c);
        let a1 = a.subrange(0, i);
        let a2 = a.subrange(i + 1, a.len() as int);
        assert(!a1.contains(c)) by {
            if a1.contains(c) {
                let k = choose|k: int| 0 <= k < a1.len() && a1[k] == c;
                assert(a[k] == c);
            }
        }
        assert(a =~= a1 + seq![c] + a2);
        assert(a + seq![c] + b =~= a1 + seq![c] + (a2 + seq![c] + b));
        lemma_split_char_step(a1, a2 + seq![c] + b, c);
        lemma_split_char_step(a1, a2, c);
        lemma_split_append(a2, b, c);
        assert(seq![a1] + (split_char(a2, c) + split_char(b, c)) =~= (seq![a1] + split_char(a2, c))
            + split_char(b, c));
    }
}

proof fn lemma_split_single(c: Seq<char>)
    requires
        !c.contains('/'),
    ensures
        split_char(c, '/') == seq![c],
{
    crate::text::lemma_split_char_none(c, '/');
}

/// Pushing a named segment that holds no `/` adds exactly that component.
pub proof fn lemma_join_component(p: Seq<char>, c: Seq<char>)
    requires
        is_named(c),
        !c.contains('/'),
    ensures
        components(join_path(p, c)) == components(p) + seq![c],
{
    lemma_split_char_len(p, '/');
    assert(c[0] != '/') by {
        assert(c.contains(c[0]));
    }
    lemma_split_single(c);
    let j = join_path(p, c);
    if p.len() == 0 {
        assert(j == c);
        assert(split_char(p, '/') =~= seq![Seq::<char>::empty()]);
        assert(seq![c].drop_last() =~= Seq::<Seq<char>>::empty());
        assert(named_segments(Seq::<Seq<char>>::empty()) =~= Seq::<Seq<char>>::empty());
        assert(named_segments(seq![c]) =~= seq![c]);
        assert(named_segments(seq![Seq::<char>::empty()]) =~= Seq::<Seq<char>>::empty()) by {
            assert(seq![Seq::<char>::empty()].drop_last() =~= Seq::<Seq<char>>::empty());
        }
        assert(components(j) =~= components(p) + seq![c]);
    } else if p.last() == '/' {
        let q = p.drop_last();
        assert(p =~= q + seq!['/'] + Seq::<char>::empty());
        assert(j =~= q + seq!['/'] + c);
        lemma_split_append(q, Seq::<char>::empty(), '/');
        lemma_split_append(q, c, '/');
        assert(split_char(Seq::<char>::empty(), '/') =~= seq![Seq::<char>::empty()]);
        lemma_named_append(split_char(q, '/'), seq![Seq::<char>::empty()]);
        lemma_named_append(split_char(q, '/'), seq![c]);
        assert(named_segments(seq![Seq::<char>::empty()]) =~= Seq::<Seq<char>>::empty()) by {
            assert(seq![Seq::<char>::empty()].drop_last() =~= Seq::<Seq<char>>::empty());
            assert(named_segments(Seq::<Seq<char>>::empty()) =~= Seq::<Seq<char>>::empty());
            assert(!is_named(Seq::<char>::empty()));
        }
        assert(named_segments(seq![c]) =~= seq![c]) by {
            assert(seq![c].drop_last() =~= Seq::<Seq<char>>::empty());
            assert(named_segments(Seq::<Seq<char>>::empty()) =~= Seq::<Seq<char>>::empty());
        }
        lemma_split_char_len(q, '/');
        assert(split_char(j, '/')[0] == split_char(p, '/')[0]);
        assert(j[0] == p[0]) by {
            if q.len() == 0 {
                assert(p[0] == '/');
                assert(j[0] == '/');
            } else {
                assert(p[0] == q[0]);
                assert(j[0] == q[0]);
            }
        }
        assert(components(j) =~= components(p) + seq![c]);
    } else {
        assert(j =~= p + seq!['/'] + c);
        lemma_split_append(p, c, '/');
        lemma_named_append(split_char(p, '/'), seq![c]);
        assert(named_segments(seq![c]) =~= seq![c]) by {
            assert(seq![c].drop_last() =~= Seq::<Seq<char>>::empty());
            assert(named_segments(Seq::<Seq<char>>::empty()) =~= Seq::<Seq<char>>::empty());
        }
        assert(split_char(j, '/')[0] == split_char(p, '/')[0]);
        assert(j[0] == p[0]);
        assert(components(j) =~= components(p) + seq![c]);
    }
}

fn named_segments_exec(segs: &Vec<Vec<char>>) -> (r: Vec<Vec<char>>)
    ensures
        r@.len() == named_segments(Seq::new(segs@.len(), |i: int| segs@[i]@)).len(),
        forall|i: int| 0 <= i < r@.len() ==> (#[trigger] r@[i])@ == named_segments(Seq::new(segs@.len(), |k: int| segs@[k]@))[i],
{
    let ghost all = Seq::new(segs@.len(), |i: int| segs@[i]@);
    let mut r: Vec<Vec<char>> = Vec::new();
    let mut i: usize = 0;
    while i < segs.len()
        invariant
            i <= segs@.len(),
            all == Seq::new(segs@.len(), |k: int| segs@[k]@),
            r@.len() == named_segments(all.subrange(0, i as int)).len(),
            forall|k: int| 0 <= k < r@.len() ==> (#[trigger] r@[k])@ == named_segments(all.subrange(0, i as int))[k],
        decreases segs@.len() - i,
    {
        let s = &segs[i];
        let dot: Vec<char> = vec!['.'];
        let keep = s.len() > 0 && !chars_eq(s, &dot);
        proof {
            assert(all.subrange(0, i + 1).drop_last() =~= all.subrange(0, i as int));
            assert(dot@ =~= seq!['.']);
        }
        if keep {
            r.push(slice_vec(s, 0, s.len()));
            assert(s@.subrange(0, s@.len() as int) =~= s@);
        }
        i += 1;
    }
    assert(all.subrange(0, segs@.len() as int) =~= all);
    r
}

/// `Path::components`, as character vectors.
pub fn components_of(p: &Vec<char>) -> (r: Vec<Vec<char>>)
    ensures
        r@.len() == components(p@).len(),
        forall|i: int| 0 <= i < r@.len() ==> (#[trigger] r@[i])@ == components(p@)[i],
{
    let segs = split_on(p, '/');
    proof {
        lemma_split_char_len(p@, '/');
    }
    let ghost sv = Seq::new(segs@.len(), |i: int| segs@[i]@);
    assert(sv =~= split_char(p@, '/'));
    let named = named_segments_exec(&segs);
    let mut r: Vec<Vec<char>> = Vec::new();
    let absolute = p.len() > 0 && p[0] == '/';
    if absolute {
        r.push(vec!['/']);
    }
    let dot: Vec<char> = vec!['.'];
    if !absolute && chars_eq(&segs[0], &dot) {
        r.push(vec!['.']);
    }
    let ghost head = r@;
    let ghost head_v = Seq::new(r@.len(), |i: int| r@[i]@);
    proof {
        assert(dot@ =~= seq!['.']);
        let root: Seq<Seq<char>> = if absolute { seq![root_marker()] } else { Seq::empty() };
        let cur: Seq<Seq<char>> = if !absolute && sv[0] == seq!['.'] { seq![cur_marker()] } else { Seq::empty() };
        assert(head_v =~= root + cur) by {
            if absolute {
                assert(r@[0]@ =~= seq!['/']);
            } else if sv[0] == seq!['.'] {
                assert(r@[0]@ =~= seq!['.']);
            }
        }
    }
    let mut i: usize = 0;
    while i < named.len()
        invariant
            i <= named@.len(),
            r@.len() == head.len() + i,
            forall|k: int| 0 <= k < head.len() ==> (#[trigger] r@[k])@ == head_v[k],
            forall|k: int| 0 <= k < i ==> (#[trigger] r@[head.len() + k])@ == named@[k]@,
            head_v.len() == head.len(),
        decreases named@.len() - i,
    {
        r.push(slice_vec(&named[i], 0, named[i].len()));
        assert(named@[i as int]@.subrange(0, named@[i as int]@.len() as int) =~= named@[i as int]@);
        i += 1;
    }
    proof {
        let want = components(p@);
        assert forall|k: int| 0 <= k < r@.len() implies (#[trigger] r@[k])@ == want[k] by {
            if k < head.len() {
            } else {
                assert(r@[head.len() + (k - head.len())]@ == named@[k - head.len()]@);
            }
        }
    }
    r
}

/// `Path::starts_with`.
pub fn path_starts_with(p: &Vec<char>, base: &Vec<char>) -> (b: bool)
    ensures
        b == path_starts_with_spec(p@, base@),
{
    let a = components_of(p);
    let c = components_of(base);
    if c.len() > a.len() {
        return false;
    }
    let mut i: usize = 0;
    while i < c.len()
        invariant
            i <= c@.len() <= a@.len(),
            a@.len() == components(p@).len(),
            c@.len() == components(base@).len(),
            forall|k: int| 0 <= k < a@.len() ==> (#[trigger] a@[k])@ == components(p@)[k],
            forall|k: int| 0 <= k < c@.len() ==> (#[trigger] c@[k])@ == components(base@)[k],
            forall|k: int| 0 <= k < i ==> components(p@)[k] == components(base@)[k],
        decreases c@.len() - i,
    {
        if !chars_eq(&a[i], &c[i]) {
            assert(components(p@).subrange(0, c@.len() as int)[i as int] != components(base@)[i as int]);
            return false;
        }
        i += 1;
    }
    assert(components(p@).subrange(0, c@.len() as int) =~= components(base@));
    true
}

// ================================================================ resolving

/// A segment that `safe_resolve` refuses: `..`, or one holding `\` or NUL.
pub open spec fn forbidden_segment(s: Seq<char>) -> bool {
    s == seq!['.', '.'] || s.contains('\\') || s.contains('\0')
}

/// `str::trim_start_matches('/')`.
pub open spec fn trim_leading_slashes(s: Seq<char>) -> Seq<char>
    decreases s.len(),
{
    if s.len() > 0 && s[0] == '/' {
        trim_leading_slashes(s.drop_first())
    } else {
        s
    }
}

/// Pushes the named segments of `segs` onto `base`, one `join` each.
pub open spec fn push_all(base: Seq<char>, segs: Seq<Seq<char>>) -> Seq<char>
    decreases segs.len(),
{
    if segs.len() == 0 {
        base
    } else {
        let b = push_all(base, segs.drop_last());
        if is_named(segs.last()) {
            join_path(b, segs.last())
        } else {
            b
        }
    }
}

/// The path that a relative path names under `root`, or why not.
pub open spec fn safe_resolve_spec(root: Seq<char>, rel: Seq<char>) -> Result<Seq<char>, ()> {
    let segs = split_char(trim_leading_slashes(rel), '/');
    if exists|i: int| 0 <= i < segs.len() && is_named(#[trigger] segs[i]) && forbidden_segment(segs[i]) {
        Err(())
    } else {
        Ok(push_all(root, segs))
    }
}

proof fn lemma_push_all_components(root: Seq<char>, segs: Seq<Seq<char>>)
    requires
        forall|i: int| 0 <= i < segs.len() ==> !(#[trigger] segs[i]).contains('/'),
    ensures
        components(push_all(root, segs)) == components(root) + named_segments(segs),
    decreases segs.len(),
{
    if segs.len() == 0 {
        assert(components(root) + named_segments(segs) =~= components(root));
    } else {
        lemma_push_all_components(root, segs.drop_last());
        let b = push_all(root, segs.drop_last());
        if is_named(segs.last()) {
            lemma_join_component(b, segs.last());
        }
        assert(components(push_all(root, segs)) =~= components(root) + named_segments(segs));
    }
}

proof fn lemma_split_no_sep(s: Seq<char>, c: char)
    ensures
        forall|i: int| 0 <= i < split_char(s, c).len() ==> !(#[trigger] split_char(s, c)[i]).contains(c),
    decreases s.len(),
{
    if s.len() > 0 {
        lemma_split_no_sep(s.drop_first(), c);
        lemma_split_char_len(s.drop_first(), c);
        let rest = split_char(s.drop_first(), c);
        if s[0] != c {
            assert forall|i: int| 0 <= i < split_char(s, c).len() implies !(#[trigger] split_char(s, c)[i]).contains(c) by {
                if i == 0 {
                    let h = seq![s[0]] + rest[0];
                    assert(split_char(s, c)[0] == h);
                    if h.contains(c) {
                        let k = choose|k: int| 0 <= k < h.len() && h[k] == c;
                        if k > 0 {
                            assert(rest[0][k - 1] == c);
                            assert(rest[0].contains(c));
                        }
                    }
                }
            }
        } else {
            assert forall|i: int| 0 <= i < split_char(s, c).len() implies !(#[trigger] split_char(s, c)[i]).contains(c) by {
                if i > 0 {
                    assert(split_char(s, c)[i] == rest[i - 1]);
                }
            }
        }
    }
}

/// A path that `safe_resolve` accepts has the root's components followed only
/// by named segments that are not `..`: it cannot leave the root.
pub proof fn law_resolved_stays_under_root(root: Seq<char>, rel: Seq<char>)
    ensures
        safe_resolve_spec(root, rel) matches Ok(p) ==> {
            &&& path_starts_with_spec(p, root)
            &&& forall|i: int| components(root).len() <= i < components(p).len() ==> {
                &&& is_named(#[trigger] components(p)[i])
                &&& components(p)[i] != seq!['.', '.']
                &&& !components(p)[i].contains('/')
            }
        },
{
    let segs = split_char(trim_leading_slashes(rel), '/');
    lemma_split_no_sep(trim_leading_slashes(rel), '/');
    if safe_resolve_spec(root, rel) is Ok {
        lemma_push_all_components(root, segs);
        let p = push_all(root, segs);
        let n = components(root).len();
        assert(components(p).subrange(0, n as int) =~= components(root));
        lemma_named_props(segs);
        assert forall|i: int| n <= i < components(p).len() implies {
            &&& is_named(#[trigger] components(p)[i])
            &&& components(p)[i] != seq!['.', '.']
            &&& !components(p)[i].contains('/')
        } by {
            assert(components(p)[i] == named_segments(segs)[i - n]);
        }
    }
}

/// Only traversal is refused: where no segment of `rel` (split on `/`, after
/// its leading slashes) is `..` or holds `\` or NUL, the path resolves, to
/// `root` with each named segment joined on in order; a segment such as
/// `.htaccess`, `.env` or `.well-known` is kept like any other.
pub proof fn law_only_traversal_refused(root: Seq<char>, rel: Seq<char>)
    requires
        forall|i: int|
            0 <= i < split_char(trim_leading_slashes(rel), '/').len() ==> {
                let s = #[trigger] split_char(trim_leading_slashes(rel), '/')[i];
                &&& s != seq!['.', '.']
                &&& !s.contains('\\')
                &&& !s.contains('\0')
            },
    ensures
        safe_resolve_spec(root, rel) == Ok::<Seq<char>, ()>(push_all(root, split_char(trim_leading_slashes(rel), '/'))),
        components(push_all(root, split_char(trim_leading_slashes(rel), '/'))) == components(root) + named_segments(
            split_char(trim_leading_slashes(rel), '/'),
        ),
{
    let segs = split_char(trim_leading_slashes(rel), '/');
    lemma_split_no_sep(trim_leading_slashes(rel), '/');
    lemma_push_all_components(root, segs);
    assert(!exists|i: int| 0 <= i < segs.len() && is_named(#[trigger] segs[i]) && forbidden_segment(segs[i]));
}

/// A single named segment that is not `..` and holds no `/`, `\` or NUL
/// (a dot-file such as `.htaccess` among them) resolves to `root` joined
/// with it.
pub proof fn law_single_segment_resolves(root: Seq<char>, name: Seq<char>)
    requires
        name.len() > 0,
        name[0] != '/',
        name != seq!['.'],
        name != seq!['.', '.'],
        !name.contains('/'),
        !name.contains('\\'),
        !name.contains('\0'),
    ensures
        safe_resolve_spec(root, name) == Ok::<Seq<char>, ()>(join_path(root, name)),
{
    assert(trim_leading_slashes(name) == name);
    lemma_split_single(name);
    let segs = split_char(name, '/');
    assert(segs =~= seq![name]);
    assert(!exists|i: int| 0 <= i < segs.len() && is_named(#[trigger] segs[i]) && forbidden_segment(segs[i]));
    assert(segs.drop_last() =~= Seq::<Seq<char>>::empty());
    assert(push_all(root, segs.drop_last()) == root);
}

proof fn lemma_named_props(segs: Seq<Seq<char>>)
    requires
        forall|i: int| 0 <= i < segs.len() ==> !(#[trigger] segs[i]).contains('/'),
        !exists|i: int| 0 <= i < segs.len() && is_named(#[trigger] segs[i]) && forbidden_segment(segs[i]),
    ensures
        forall|k: int| 0 <= k < named_segments(segs).len() ==> {
            &&& is_named(#[trigger] named_segments(segs)[k])
            &&& !forbidden_segment(named_segments(segs)[k])
            &&& !named_segments(segs)[k].contains('/')
        },
    decreases segs.len(),
{
    if segs.len() > 0 {
        let last = segs.last();
        assert(segs.last() == segs[segs.len() - 1]);
        lemma_named_props(segs.drop_last());
        assert forall|k: int| 0 <= k < named_segments(segs).len() implies {
            &&& is_named(#[trigger] named_segments(segs)[k])
            &&& !forbidden_segment(named_segments(segs)[k])
            &&& !named_segments(segs)[k].contains('/')
        } by {
            if k < named_segments(segs.drop_last()).len() {
                assert(named_segments(segs)[k] == named_segments(segs.drop_last())[k]);
            } else {
                assert(named_segments(segs)[k] == last);
            }
        }
    }
}

fn trim_leading_slashes_exec(s: &Vec<char>) -> (r: Vec<char>)
    ensures
        r@ == trim_leading_slashes(s@),
{
    let mut a: usize = 0;
    assert(s@.subrange(0, s@.len() as int) =~= s@);
    while a < s.len() && s[a] == '/'
        invariant
            a <= s.len(),
            trim_leading_slashes(s@) == trim_leading_slashes(s@.subrange(a as int, s@.len() as int)),
        decreases s.len() - a,
    {
        assert(s@.subrange(a as int, s@.len() as int).drop_first() =~= s@.subrange(a + 1, s@.len() as int));
        a += 1;
    }
    slice_vec(s, a, s.len())
}

/// Resolves `rel` under `root`: leading `/` are ignored, empty and `.`
/// segments skipped; a `..` segment or one holding `\` or NUL is refused.
pub fn safe_resolve(root: &str, rel: &str) -> (r: Result<String, ApiError>)
    ensures
        match safe_resolve_spec(root@, rel@) {
            Ok(p) => r matches Ok(q) && q@ == p,
            Err(_) => r matches Err(e) && e.status == 400 && e.message@ == "Invalid path (traversal blocked)"@,
        },
{
    let relv = chars_of(rel);
    let trimmed = trim_leading_slashes_exec(&relv);
    let segs = split_on(&trimmed, '/');
    let ghost sv = split_char(trimmed@, '/');
    let mut cur = root.to_string();
    let mut i: usize = 0;
    proof {
        lemma_split_no_sep(trimmed@, '/');
        assert(push_all(root@, sv.subrange(0, 0)) == root@);
    }
    while i < segs.len()
        invariant
            i <= segs@.len() == sv.len(),
            sv == split_char(trimmed@, '/'),
            trimmed@ == trim_leading_slashes(rel@),
            forall|k: int| 0 <= k < segs@.len() ==> (#[trigger] segs@[k])@ == sv[k],
            forall|k: int| 0 <= k < i ==> !(is_named(#[trigger] sv[k]) && forbidden_segment(sv[k])),
            cur@ == push_all(root@, sv.subrange(0, i as int)),
        decreases segs@.len() - i,
    {
        let comp = &segs[i];
        let dot: Vec<char> = vec!['.'];
        let dotdot: Vec<char> = vec!['.', '.'];
        proof {
            assert(dot@ =~= seq!['.']);
            assert(dotdot@ =~= seq!['.', '.']);
            assert(sv.subrange(0, i + 1).drop_last() =~= sv.subrange(0, i as int));
        }
        if comp.len() == 0 || chars_eq(comp, &dot) {
            i += 1;
            continue;
        }
        if chars_eq(comp, &dotdot) || contains_char(comp, '\\') || contains_char(comp, '\0') {
            proof {
                let k = i as int;
                assert(is_named(sv[k]) && forbidden_segment(sv[k]));
            }
            return Err(ApiError::new(400, "Invalid path (traversal blocked)"));
        }
        let name = string_of(comp);
        cur = join(cur.as_str(), name.as_str());
        i += 1;
    }
    proof {
        assert(sv.subrange(0, sv.len() as int) =~= sv);
        assert(!exists|k: int| 0 <= k < sv.len() && is_named(#[trigger] sv[k]) && forbidden_segment(sv[k]));
        lemma_push_all_components(root@, sv);
        let p = push_all(root@, sv);
        assert(components(p).subrange(0, components(root@).len() as int) =~= components(root@));
    }
    let curv = chars_of(cur.as_str());
    let rootv = chars_of(root);
    if !path_starts_with(&curv, &rootv) {
        return Err(ApiError::new(400, "Invalid path (outside document root)"));
    }
    Ok(cur)
}

// ================================================================ small helpers

/// `str::trim_matches('/')`.
pub open spec fn trim_slashes(s: Seq<char>) -> Seq<char>
    decreases s.len(),
{
    if s.len() > 0 && s[0] == '/' {
        trim_slashes(s.drop_first())
    } else if s.len() > 0 && s.last() == '/' {
        trim_slashes(s.drop_last())
    } else {
        s
    }
}

fn trim_slashes_exec(s: &Vec<char>) -> (r: Vec<char>)
    ensures
        r@ == trim_slashes(s@),
{
    let mut a: usize = 0;
    let mut b: usize = s.len();
    assert(s@.subrange(0, s@.len() as int) =~= s@);
    while a < b && (s[a] == '/' || s[b - 1] == '/')
        invariant
            a <= b <= s.len(),
            trim_slashes(s@) == trim_slashes(s@.subrange(a as int, b as int)),
        decreases b - a,
    {
        let ghost cur = s@.subrange(a as int, b as int);
        if s[a] == '/' {
            assert(cur.drop_first() =~= s@.subrange(a + 1, b as int));
            a += 1;
        } else {
            assert(cur.drop_last() =~= s@.subrange(a as int, b - 1));
            b -= 1;
        }
    }
    slice_vec(s, a, b)
}

/// The parent directory of a relative path, `""` at the top.
pub open spec fn parent_of_spec(rel: Seq<char>) -> Seq<char> {
    let clean = trim_slashes(rel);
    if clean.contains('/') {
        clean.subrange(0, last_index_of(clean, '/'))
    } else {
        Seq::empty()
    }
}

pub fn parent_of(rel: &str) -> (r: String)
    ensures
        r@ == parent_of_spec(rel@),
{
    let clean = trim_slashes_exec(&chars_of(rel));
    match rfind_char(&clean, '/') {
        Some(i) => {
            proof {
                lemma_last_index_of(clean@, '/');
            }
            string_of(&slice_vec(&clean, 0, i))
        },
        None => String::new(),
    }
}

/// `rwx` text of the permission bits, owner then group then others.
pub open spec fn perms_text(mode: u32) -> Seq<char> {
    Seq::new(
        9,
        |k: int|
            {
                let v = (mode as nat / vstd::arithmetic::power2::pow2((6 - (k / 3) * 3) as nat)) % 8;
                let bit = if k % 3 == 0 {
                    4nat
                } else if k % 3 == 1 {
                    2nat
                } else {
                    1nat
                };
                if (v / bit) % 2 == 1 {
                    if k % 3 == 0 {
                        'r'
                    } else if k % 3 == 1 {
                        'w'
                    } else {
                        'x'
                    }
                } else {
                    '-'
                }
            },
    )
}

pub fn fmt_perms(mode: u32) -> (r: String)
    ensures
        r@ == perms_text(mode),
{
    let mut out: Vec<char> = Vec::new();
    let mut i: u32 = 0;
    proof {
        vstd::arithmetic::power2::lemma2_to64();
    }
    while i < 3
        invariant
            i <= 3,
            out@.len() == 3 * i,
            forall|k: int| 0 <= k < out@.len() ==> #[trigger] out@[k] == perms_text(mode)[k],
            vstd::arithmetic::power2::pow2(6) == 64 && vstd::arithmetic::power2::pow2(3) == 8
                && vstd::arithmetic::power2::pow2(0) == 1,
        decreases 3 - i,
    {
        let sh = 6 - i * 3;
        let v = (mode >> sh) & 7;
        proof {
            vstd::bits::lemma_u32_shr_is_div(mode, sh);
            assert((mode >> sh) & 7 == (mode >> sh) % 8) by (bit_vector);
            assert(v & 4 != 0 <==> (v / 4) % 2 == 1) by (bit_vector) requires v < 8;
            assert(v & 2 != 0 <==> (v / 2) % 2 == 1) by (bit_vector) requires v < 8;
            assert(v & 1 != 0 <==> (v / 1) % 2 == 1) by (bit_vector) requires v < 8;
        }
        out.push(if v & 4 != 0 { 'r' } else { '-' });
        out.push(if v & 2 != 0 { 'w' } else { '-' });
        out.push(if v & 1 != 0 { 'x' } else { '-' });
        proof {
            let b = 3 * i as int;
            assert(b / 3 == i as int && (b + 1) / 3 == i as int && (b + 2) / 3 == i as int);
            assert(b % 3 == 0 && (b + 1) % 3 == 1 && (b + 2) % 3 == 2);
        }
        i += 1;
    }
    assert(out@ =~= perms_text(mode));
    string_of(&out)
}

/// `str::trim_start_matches("0o")`: every leading `0o` removed.
pub open spec fn strip_octal_prefix(s: Seq<char>) -> Seq<char>
    decreases s.len(),
{
    if s.len() >= 2 && s[0] == '0' && s[1] == 'o' {
        strip_octal_prefix(s.subrange(2, s.len() as int))
    } else {
        s
    }
}

/// Octal digits' value.
pub open spec fn octal_value(s: Seq<char>) -> nat
    decreases s.len(),
{
    if s.len() == 0 {
        0
    } else {
        octal_value(s.drop_last()) * 8 + ((s.last() as u32) - 48) as nat
    }
}

/// What `u32::from_str_radix(_, 8)` accepts: an optional `+`, then one or
/// more octal digits whose value fits in a `u32`.
pub open spec fn parse_octal(s: Seq<char>) -> Option<nat> {
    let body = sign_body(s);
    if body.len() > 0 && all_octal(body) && octal_value(body) <= u32::MAX {
        Some(octal_value(body))
    } else {
        None
    }
}

/// The text after an optional leading `+`.
pub open spec fn sign_body(s: Seq<char>) -> Seq<char> {
    if s.len() > 0 && s[0] == '+' {
        s.drop_first()
    } else {
        s
    }
}

/// Every character is an octal digit.
pub open spec fn all_octal(b: Seq<char>) -> bool {
    forall|i: int| 0 <= i < b.len() ==> '0' <= #[trigger] b[i] && b[i] <= '7'
}

proof fn lemma_octal_monotone(s: Seq<char>, k: int)
    requires
        0 <= k <= s.len(),
        forall|i: int| 0 <= i < s.len() ==> '0' <= #[trigger] s[i] && s[i] <= '7',
    ensures
        octal_value(s.subrange(0, k)) <= octal_value(s),
    decreases s.len() - k,
{
    if k < s.len() {
        lemma_octal_monotone(s, k + 1);
        assert(s.subrange(0, k + 1).drop_last() =~= s.subrange(0, k));
        assert('0' <= s[k]);
    } else {
        assert(s.subrange(0, k) =~= s);
    }
}

/// The permission bits that a `chmod` request names, or why not.
pub open spec fn chmod_mode_spec(mode: Seq<char>) -> Result<nat, Seq<char>> {
    match parse_octal(strip_octal_prefix(mode)) {
        None => Err("Invalid mode (octal expected)"@),
        Some(v) => if v > 0o7777 {
            Err("Invalid mode"@)
        } else {
            Ok(v)
        },
    }
}

pub fn chmod_mode(mode: &str) -> (r: Result<u32, ApiError>)
    ensures
        match chmod_mode_spec(mode@) {
            Ok(v) => r matches Ok(m) && m as nat == v,
            Err(msg) => r matches Err(e) && e.status == 400 && e.message@ == msg,
        },
{
    let mut s = chars_of(mode);
    while s.len() >= 2 && s[0] == '0' && s[1] == 'o'
        invariant
            strip_octal_prefix(s@) == strip_octal_prefix(mode@),
        decreases s.len(),
    {
        assert(s@.subrange(2, s@.len() as int) == s@.subrange(2, s@.len() as int));
        s = slice_vec(&s, 2, s.len());
    }
    assert(strip_octal_prefix(s@) == s@);
    let start: usize = if s.len() > 0 && s[0] == '+' { 1 } else { 0 };
    let ghost body = sign_body(s@);
    assert(body =~= s@.subrange(start as int, s@.len() as int));
    if start >= s.len() {
        return Err(ApiError::new(400, "Invalid mode (octal expected)"));
    }
    let mut acc: u64 = 0;
    let mut i: usize = start;
    while i < s.len()
        invariant
            start <= i <= s.len(),
            start < s.len(),
            body == s@.subrange(start as int, s@.len() as int),
            forall|k: int| start <= k < i ==> '0' <= #[trigger] s@[k] && s@[k] <= '7',
            acc as nat == octal_value(s@.subrange(start as int, i as int)),
            acc <= u32::MAX,
            s@ == strip_octal_prefix(mode@),
            body == sign_body(s@),
        decreases s.len() - i,
    {
        let c = s[i];
        if !('0' <= c && c <= '7') {
            assert(!('0' <= body[i - start] && body[i - start] <= '7'));
            assert(!all_octal(body));
            return Err(ApiError::new(400, "Invalid mode (octal expected)"));
        }
        proof {
            assert(s@.subrange(start as int, i + 1).drop_last() =~= s@.subrange(start as int, i as int));
        }
        acc = acc * 8 + ((c as u32) - 48) as u64;
        if acc > 0xFFFF_FFFF {
            proof {
                let pre = s@.subrange(start as int, i + 1);
                assert forall|k: int| 0 <= k < pre.len() implies '0' <= #[trigger] pre[k] && pre[k] <= '7' by {
                    assert(pre[k] == s@[start + k]);
                }
                if all_octal(body) {
                    lemma_octal_monotone(body, i + 1 - start);
                    assert(body.subrange(0, i + 1 - start) =~= pre);
                }
            }
            return Err(ApiError::new(400, "Invalid mode (octal expected)"));
        }
        i += 1;
    }
    proof {
        assert(s@.subrange(start as int, s@.len() as int) =~= body);
        assert forall|k: int| 0 <= k < body.len() implies '0' <= #[trigger] body[k] && body[k] <= '7' by {
            assert(body[k] == s@[start + k]);
        }
        assert(all_octal(body));
    }
    if acc > 0o7777 {
        return Err(ApiError::new(400, "Invalid mode"));
    }
    Ok(acc as u32)
}

/// A name for a new file or directory: not empty, no `/` or `\`, not `.` or `..`.
pub open spec fn valid_entry_name(name: Seq<char>) -> bool {
    !(name.len() == 0 || name.contains('/') || name.contains('\\') || name == seq!['.'] || name == seq!['.', '.'])
}

/// Checks the name of a directory (`is_dir`) or file to create.
pub fn check_entry_name(name: &str, is_dir: bool) -> (r: Result<(), ApiError>)
    ensures
        valid_entry_name(name@) ==> r is Ok,
        !valid_entry_name(name@) ==> (r matches Err(e) && e.status == 400 && e.message@ == (if is_dir {
            "Invalid directory name"@
        } else {
            "Invalid file name"@
        })),
{
    let v = chars_of(name);
    let dot: Vec<char> = vec!['.'];
    let dotdot: Vec<char> = vec!['.', '.'];
    assert(dot@ =~= seq!['.']);
    assert(dotdot@ =~= seq!['.', '.']);
    if v.len() == 0 || contains_char(&v, '/') || contains_char(&v, '\\') || chars_eq(&v, &dot) || chars_eq(&v, &dotdot) {
        if is_dir {
            return Err(ApiError::new(400, "Invalid directory name"));
        } else {
            return Err(ApiError::new(400, "Invalid file name"));
        }
    }
    Ok(())
}

/// A delete request must name something below the root.
pub fn check_delete_target(rel: &str) -> (r: Result<(), ApiError>)
    ensures
        trim(rel@).len() == 0 ==> (r matches Err(e) && e.status == 400 && e.message@ == "Cannot delete root"@),
        trim(rel@).len() > 0 ==> r is Ok,
{
    if trim_str(rel).len() == 0 {
        return Err(ApiError::new(400, "Cannot delete root"));
    }
    Ok(())
}

/// `str::trim_end_matches('/')`.
pub open spec fn trim_trailing_slashes(s: Seq<char>) -> Seq<char>
    decreases s.len(),
{
    if s.len() > 0 && s.last() == '/' {
        trim_trailing_slashes(s.drop_last())
    } else {
        s
    }
}

/// The path shown for a listing: without trailing `/`.
pub fn listing_path(rel: &str) -> (r: String)
    ensures
        r@ == trim_trailing_slashes(rel@),
{
    let v = chars_of(rel);
    let mut b: usize = v.len();
    assert(v@.subrange(0, b as int) =~= v@);
    while b > 0 && v[b - 1] == '/'
        invariant
            b <= v.len(),
            trim_trailing_slashes(v@) == trim_trailing_slashes(v@.subrange(0, b as int)),
        decreases b,
    {
        assert(v@.subrange(0, b as int).drop_last() =~= v@.subrange(0, b - 1));
        b -= 1;
    }
    string_of(&slice_vec(&v, 0, b))
}

} // verus!
