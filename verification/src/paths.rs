use vstd::prelude::*;

verus! {

// A path is read as Unix does: `/` separates components, repeated separators and `.`
// components are dropped except for a leading `.`, and a trailing separator is ignored.
// A component sequence writes the root as `"/"`, a leading current-directory component as
// `"."` and a parent-directory component as `".."`; every other component is a normal name,
// which is never empty and holds no `/`.

/// The pieces of `s` between separators, in order (always at least one, possibly empty).
pub open spec fn split_segments(s: Seq<char>) -> Seq<Seq<char>>
    decreases s.len(),
{
    if s.len() == 0 {
        seq![Seq::<char>::empty()]
    } else {
        let init = split_segments(s.drop_last());
        if s.last() == '/' {
            init.push(Seq::<char>::empty())
        } else {
            init.update(init.len() - 1, init.last().push(s.last()))
        }
    }
}

pub proof fn lemma_split_segments_nonempty(s: Seq<char>)
    ensures
        split_segments(s).len() >= 1,
    decreases s.len(),
{
    if s.len() > 0 {
        lemma_split_segments_nonempty(s.drop_last());
    }
}

/// The one-character component `"/"` that stands for the root directory.
pub open spec fn root_dir() -> Seq<char> {
    seq!['/']
}

/// The component `"."`.
pub open spec fn cur_dir() -> Seq<char> {
    seq!['.']
}

/// The component `".."`.
pub open spec fn parent_dir() -> Seq<char> {
    seq!['.', '.']
}

/// Whether a separator-delimited piece names a component after the first one.
pub open spec fn is_kept_segment(seg: Seq<char>) -> bool {
    seg.len() > 0 && seg != cur_dir()
}

/// The pieces of `segs` that name components: neither empty nor `.`.
pub open spec fn kept_segments(segs: Seq<Seq<char>>) -> Seq<Seq<char>>
    decreases segs.len(),
{
    if segs.len() == 0 {
        Seq::<Seq<char>>::empty()
    } else {
        let k = kept_segments(segs.drop_last());
        if is_kept_segment(segs.last()) {
            k.push(segs.last())
        } else {
            k
        }
    }
}

/// The components of the path `s`.
pub open spec fn components(s: Seq<char>) -> Seq<Seq<char>> {
    let segs = split_segments(s);
    let head = if s.len() > 0 && s[0] == '/' {
        seq![root_dir()]
    } else if segs[0] == cur_dir() {
        seq![cur_dir()]
    } else {
        Seq::<Seq<char>>::empty()
    };
    head + kept_segments(segs)
}

/// Whether a component is a normal name (not the root, `.` or `..`).
pub open spec fn is_normal(c: Seq<char>) -> bool {
    c != root_dir() && c != cur_dir() && c != parent_dir()
}

/// The final component, when it is a normal name.
pub open spec fn file_name(c: Seq<Seq<char>>) -> Option<Seq<char>> {
    if c.len() > 0 && is_normal(c.last()) {
        Some(c.last())
    } else {
        None
    }
}

/// The components of `c` after `base`, when `base` is a whole-component prefix of `c`.
pub open spec fn strip_prefix(c: Seq<Seq<char>>, base: Seq<Seq<char>>) -> Option<Seq<Seq<char>>> {
    if base.len() <= c.len() && c.take(base.len() as int) == base {
        Some(c.skip(base.len() as int))
    } else {
        None
    }
}

/// The index of the last `'.'` in `name`, or -1.
pub open spec fn last_dot(name: Seq<char>) -> int
    decreases name.len(),
{
    if name.len() == 0 {
        -1
    } else if name.last() == '.' {
        name.len() - 1
    } else {
        last_dot(name.drop_last())
    }
}

/// The extension of a file name: the part after the final `.`, unless the name has no `.`
/// or its only `.` is the first character.
pub open spec fn name_extension(name: Seq<char>) -> Option<Seq<char>> {
    let d = last_dot(name);
    if d <= 0 {
        None
    } else {
        Some(name.skip(d + 1))
    }
}

/// The stem of a file name: the part before the final `.`, or the whole name where
/// [`name_extension`] finds no extension.
pub open spec fn name_stem(name: Seq<char>) -> Seq<char> {
    let d = last_dot(name);
    if d <= 0 {
        name
    } else {
        name.take(d)
    }
}

/// The extension of the path `s`.
pub open spec fn path_extension(s: Seq<char>) -> Option<Seq<char>> {
    match file_name(components(s)) {
        Some(n) => name_extension(n),
        None => None,
    }
}

/// Components joined by separators, with the root written as a leading `/`.
pub open spec fn join_components(c: Seq<Seq<char>>) -> Seq<char>
    decreases c.len(),
{
    if c.len() == 0 {
        Seq::<char>::empty()
    } else if c.len() == 1 {
        c[0]
    } else {
        join_components(c.drop_last()) + seq!['/'] + c.last()
    }
}

/// `buf` extended by `p` as `PathBuf::push` does on Unix: an absolute `p` replaces `buf`;
/// otherwise a separator is added unless `buf` is empty or already ends with one.
pub open spec fn push_path(buf: Seq<char>, p: Seq<char>) -> Seq<char> {
    if p.len() > 0 && p[0] == '/' {
        p
    } else if buf.len() > 0 && buf.last() != '/' {
        buf + seq!['/'] + p
    } else {
        buf + p
    }
}

/// The character sequences held by a vector of character vectors.
pub open spec fn parts_view(v: Seq<Vec<char>>) -> Seq<Seq<char>> {
    v.map_values(|x: Vec<char>| x@)
}

/// Splits `cs` at every `/`.
pub fn split_at_separators(cs: &Vec<char>) -> (r: Vec<Vec<char>>)
    ensures
        parts_view(r@) == split_segments(cs@),
{
    let mut segs: Vec<Vec<char>> = Vec::new();
    let mut cur: Vec<char> = Vec::new();
    let mut i: usize = 0;
    proof {
        assert(cs@.take(0) =~= Seq::<char>::empty());
        assert(parts_view(segs@).push(cur@) =~= seq![Seq::<char>::empty()]);
    }
    while i < cs.len()
        invariant
            i <= cs@.len(),
            split_segments(cs@.take(i as int)) == parts_view(segs@).push(cur@),
        decreases cs@.len() - i,
    {
        let c = cs[i];
        proof {
            assert(cs@.take(i + 1).drop_last() =~= cs@.take(i as int));
            lemma_split_segments_nonempty(cs@.take(i as int));
        }
        let ghost old_segs = segs@;
        let ghost old_cur = cur@;
        if c == '/' {
            segs.push(cur);
            cur = Vec::new();
            proof {
                assert(parts_view(segs@) =~= parts_view(old_segs).push(old_cur));
                assert(parts_view(segs@).push(cur@) =~= parts_view(old_segs).push(old_cur).push(
                    Seq::<char>::empty()));
            }
        } else {
            cur.push(c);
            proof {
                assert(parts_view(segs@).push(cur@) =~= parts_view(old_segs).push(old_cur).update(
                    old_segs.len() as int, old_cur.push(c)));
            }
        }
        i = i + 1;
    }
    proof {
        assert(cs@.take(cs@.len() as int) =~= cs@);
    }
    let ghost old_segs = segs@;
    segs.push(cur);
    proof {
        assert(parts_view(segs@) =~= parts_view(old_segs).push(cur@));
    }
    segs
}

/// Whether `a` holds the same characters as `b`.
fn same_chars(a: &Vec<char>, b: &Vec<char>) -> (r: bool)
    ensures
        r == (a@ == b@),
{
    if a.len() != b.len() {
        return false;
    }
    let mut i: usize = 0;
    while i < a.len()
        invariant
            a@.len() == b@.len(),
            i <= a@.len(),
            forall|k: int| 0 <= k < i ==> a@[k] == b@[k],
        decreases a@.len() - i,
    {
        if a[i] != b[i] {
            return false;
        }
        i = i + 1;
    }
    assert(a@ =~= b@);
    true
}

/// Whether `seg` is the single character `.`.
fn is_cur_dir(seg: &Vec<char>) -> (r: bool)
    ensures
        r == (seg@ == cur_dir()),
{
    let r = seg.len() == 1 && seg[0] == '.';
    proof {
        if r {
            assert(seg@ =~= cur_dir());
        }
    }
    r
}

/// A copy of `v`.
pub fn copy_chars(v: &Vec<char>) -> (r: Vec<char>)
    ensures
        r@ == v@,
{
    let mut r: Vec<char> = Vec::new();
    let mut i: usize = 0;
    while i < v.len()
        invariant
            i <= v@.len(),
            r@ == v@.take(i as int),
        decreases v@.len() - i,
    {
        r.push(v[i]);
        assert(v@.take(i + 1) =~= v@.take(i as int).push(v@[i as int]));
        i = i + 1;
    }
    assert(v@.take(v@.len() as int) =~= v@);
    r
}

/// The one-character vector `[c]`.
pub fn single_char(c: char) -> (r: Vec<char>)
    ensures
        r@ == seq![c],
{
    let mut r: Vec<char> = Vec::new();
    r.push(c);
    assert(r@ =~= seq![c]);
    r
}

/// The components of the path written by `cs`.
pub fn path_components(cs: &Vec<char>) -> (r: Vec<Vec<char>>)
    ensures
        parts_view(r@) == components(cs@),
{
    let segs = split_at_separators(cs);
    proof {
        lemma_split_segments_nonempty(cs@);
    }
    let mut r: Vec<Vec<char>> = Vec::new();
    if cs.len() > 0 && cs[0] == '/' {
        r.push(single_char('/'));
    } else if is_cur_dir(&segs[0]) {
        r.push(single_char('.'));
    }
    let ghost head = parts_view(r@);
    proof {
        assert(segs@[0]@ == split_segments(cs@)[0]);
        if cs@.len() > 0 && cs@[0] == '/' {
            assert(parts_view(r@) =~= seq![root_dir()]);
        } else if split_segments(cs@)[0] == cur_dir() {
            assert(parts_view(r@) =~= seq![cur_dir()]);
        } else {
            assert(head =~= Seq::<Seq<char>>::empty());
        }
        assert(parts_view(segs@).take(0) =~= Seq::<Seq<char>>::empty());
        assert(head + kept_segments(parts_view(segs@).take(0)) =~= head);
    }
    let mut j: usize = 0;
    while j < segs.len()
        invariant
            j <= segs@.len(),
            parts_view(r@) == head + kept_segments(parts_view(segs@).take(j as int)),
        decreases segs@.len() - j,
    {
        let ghost before = r@;
        proof {
            assert(parts_view(segs@).take(j + 1).drop_last() =~= parts_view(segs@).take(j as int));
        }
        if segs[j].len() > 0 && !is_cur_dir(&segs[j]) {
            r.push(copy_chars(&segs[j]));
            proof {
                assert(parts_view(r@) =~= parts_view(before).push(segs@[j as int]@));
            }
        }
        j = j + 1;
    }
    proof {
        assert(parts_view(segs@).take(segs@.len() as int) =~= parts_view(segs@));
    }
    r
}

pub proof fn lemma_last_dot_bounds(name: Seq<char>)
    ensures
        -1 <= last_dot(name) < name.len(),
        last_dot(name) >= 0 ==> name[last_dot(name)] == '.',
        forall|k: int| last_dot(name) < k < name.len() ==> name[k] != '.',
    decreases name.len(),
{
    if name.len() > 0 && name.last() != '.' {
        lemma_last_dot_bounds(name.drop_last());
        assert forall|k: int| last_dot(name) < k < name.len() implies name[k] != '.' by {
            if k < name.len() - 1 {
                assert(name[k] == name.drop_last()[k]);
            }
        }
    }
}

/// The index of the last `.` in `name`, if any.
fn find_last_dot(name: &Vec<char>) -> (r: Option<usize>)
    ensures
        match r {
            Some(d) => last_dot(name@) == d as int,
            None => last_dot(name@) == -1,
        },
{
    let mut i = name.len();
    assert(name@.take(i as int) =~= name@);
    while i > 0
        invariant
            i <= name@.len(),
            last_dot(name@) == last_dot(name@.take(i as int)),
        decreases i,
    {
        if name[i - 1] == '.' {
            return Some(i - 1);
        }
        assert(name@.take(i as int).drop_last() =~= name@.take(i - 1));
        i = i - 1;
    }
    None
}

/// `v[from..to]` as a new vector.
fn chars_range(v: &Vec<char>, from: usize, to: usize) -> (r: Vec<char>)
    requires
        from <= to <= v@.len(),
    ensures
        r@ == v@.subrange(from as int, to as int),
{
    let mut r: Vec<char> = Vec::new();
    let mut k = from;
    while k < to
        invariant
            from <= k <= to <= v@.len(),
            r@ == v@.subrange(from as int, k as int),
        decreases to - k,
    {
        r.push(v[k]);
        assert(v@.subrange(from as int, k + 1) =~= v@.subrange(from as int, k as int).push(v@[k as int]));
        k = k + 1;
    }
    r
}

/// The extension of a file name (see [`name_extension`]).
pub fn extension_of_name(name: &Vec<char>) -> (r: Option<Vec<char>>)
    ensures
        match name_extension(name@) {
            Some(e) => r is Some && r->0@ == e,
            None => r is None,
        },
{
    proof {
        lemma_last_dot_bounds(name@);
    }
    match find_last_dot(name) {
        Some(d) => {
            assert(d < name.len());
            if d == 0 {
                None
            } else {
                Some(chars_range(name, d + 1, name.len()))
            }
        },
        None => None,
    }
}

/// The stem of a file name (see [`name_stem`]).
pub fn stem_of_name(name: &Vec<char>) -> (r: Vec<char>)
    ensures
        r@ == name_stem(name@),
{
    proof {
        lemma_last_dot_bounds(name@);
    }
    match find_last_dot(name) {
        Some(d) => {
            if d == 0 {
                copy_chars(name)
            } else {
                chars_range(name, 0, d)
            }
        },
        None => copy_chars(name),
    }
}

/// Whether a component is a normal name.
fn is_normal_component(c: &Vec<char>) -> (r: bool)
    ensures
        r == is_normal(c@),
{
    let is_root = c.len() == 1 && c[0] == '/';
    let is_cur = c.len() == 1 && c[0] == '.';
    let is_parent = c.len() == 2 && c[0] == '.' && c[1] == '.';
    proof {
        if is_root {
            assert(c@ =~= root_dir());
        }
        if is_cur {
            assert(c@ =~= cur_dir());
        }
        if is_parent {
            assert(c@ =~= parent_dir());
        }
        if c@ == root_dir() {
            assert(c@[0] == '/');
        }
        if c@ == cur_dir() {
            assert(c@[0] == '.');
        }
        if c@ == parent_dir() {
            assert(c@[0] == '.' && c@[1] == '.');
        }
    }
    !is_root && !is_cur && !is_parent
}

/// The final component of `c` when it is a normal name (see [`file_name`]).
pub fn file_name_of(c: &Vec<Vec<char>>) -> (r: Option<Vec<char>>)
    ensures
        match file_name(parts_view(c@)) {
            Some(n) => r is Some && r->0@ == n,
            None => r is None,
        },
{
    if c.len() > 0 && is_normal_component(&c[c.len() - 1]) {
        Some(copy_chars(&c[c.len() - 1]))
    } else {
        None
    }
}

/// Copies of `c[from..]`.
fn copy_parts_from(c: &Vec<Vec<char>>, from: usize) -> (r: Vec<Vec<char>>)
    requires
        from <= c@.len(),
    ensures
        parts_view(r@) == parts_view(c@).skip(from as int),
{
    let mut r: Vec<Vec<char>> = Vec::new();
    let mut k = from;
    while k < c.len()
        invariant
            from <= k <= c@.len(),
            parts_view(r@) == parts_view(c@).subrange(from as int, k as int),
        decreases c@.len() - k,
    {
        let ghost before = r@;
        r.push(copy_chars(&c[k]));
        assert(parts_view(r@) =~= parts_view(before).push(c@[k as int]@));
        assert(parts_view(c@).subrange(from as int, k + 1) =~= parts_view(c@).subrange(
            from as int,
            k as int,
        ).push(c@[k as int]@));
        k = k + 1;
    }
    r
}

/// The components of `c` after the whole-component prefix `base` (see [`strip_prefix`]).
pub fn strip_components(c: &Vec<Vec<char>>, base: &Vec<Vec<char>>) -> (r: Option<Vec<Vec<char>>>)
    ensures
        match strip_prefix(parts_view(c@), parts_view(base@)) {
            Some(rest) => r is Some && parts_view(r->0@) == rest,
            None => r is None,
        },
{
    if base.len() > c.len() {
        return None;
    }
    let mut k: usize = 0;
    while k < base.len()
        invariant
            base@.len() <= c@.len(),
            k <= base@.len(),
            forall|i: int| 0 <= i < k ==> c@[i]@ == base@[i]@,
        decreases base@.len() - k,
    {
        if !same_chars(&c[k], &base[k]) {
            proof {
                assert(parts_view(c@).take(base@.len() as int)[k as int] == c@[k as int]@);
                assert(parts_view(base@)[k as int] == base@[k as int]@);
            }
            return None;
        }
        k = k + 1;
    }
    proof {
        assert(parts_view(c@).take(base@.len() as int) =~= parts_view(base@));
    }
    Some(copy_parts_from(c, base.len()))
}

/// Appends `v` to `out`.
fn append_chars(out: &mut Vec<char>, v: &Vec<char>)
    ensures
        final(out)@ == old(out)@ + v@,
{
    let mut k: usize = 0;
    while k < v.len()
        invariant
            k <= v@.len(),
            out@ == old(out)@ + v@.take(k as int),
        decreases v@.len() - k,
    {
        out.push(v[k]);
        assert(v@.take(k + 1) =~= v@.take(k as int).push(v@[k as int]));
        k = k + 1;
    }
    assert(v@.take(v@.len() as int) =~= v@);
}

/// `buf` extended by `p` (see [`push_path`]).
pub fn push_path_chars(buf: &Vec<char>, p: &Vec<char>) -> (r: Vec<char>)
    ensures
        r@ == push_path(buf@, p@),
{
    if p.len() > 0 && p[0] == '/' {
        copy_chars(p)
    } else if buf.len() > 0 && buf[buf.len() - 1] != '/' {
        let mut r = copy_chars(buf);
        r.push('/');
        append_chars(&mut r, p);
        r
    } else {
        let mut r = copy_chars(buf);
        append_chars(&mut r, p);
        r
    }
}

/// Whether `x` holds no separator.
pub open spec fn no_separator(x: Seq<char>) -> bool {
    forall|i: int| 0 <= i < x.len() ==> x[i] != '/'
}

/// A normal name or `..`: what may follow other components.
pub open spec fn is_name_like(x: Seq<char>) -> bool {
    no_separator(x) && is_kept_segment(x)
}

pub proof fn lemma_split_segments_no_separator(s: Seq<char>)
    ensures
        forall|j: int| 0 <= j < split_segments(s).len() ==> no_separator(#[trigger] split_segments(s)[j]),
    decreases s.len(),
{
    lemma_split_segments_nonempty(s);
    if s.len() > 0 {
        lemma_split_segments_no_separator(s.drop_last());
        lemma_split_segments_nonempty(s.drop_last());
        let init = split_segments(s.drop_last());
        if s.last() != '/' {
            assert forall|j: int| 0 <= j < split_segments(s).len() implies no_separator(#[trigger] split_segments(s)[j]) by {
                if j == init.len() - 1 {
                    let v = init.last().push(s.last());
                    assert(split_segments(s)[j] == v);
                    assert(no_separator(init[j]));
                    assert forall|i: int| 0 <= i < v.len() implies v[i] != '/' by {
                        if i < v.len() - 1 {
                            assert(v[i] == init.last()[i]);
                        }
                    }
                }
            }
        }
    }
}

proof fn lemma_kept_segments_name_like(segs: Seq<Seq<char>>)
    requires
        forall|j: int| 0 <= j < segs.len() ==> no_separator(#[trigger] segs[j]),
    ensures
        forall|j: int| 0 <= j < kept_segments(segs).len() ==> is_name_like(#[trigger] kept_segments(segs)[j]),
    decreases segs.len(),
{
    if segs.len() > 0 {
        assert forall|j: int| 0 <= j < segs.drop_last().len() implies no_separator(#[trigger] segs.drop_last()[j]) by {
            assert(segs.drop_last()[j] == segs[j]);
        }
        lemma_kept_segments_name_like(segs.drop_last());
        assert(no_separator(segs[segs.len() - 1]));
        let k0 = kept_segments(segs.drop_last());
        if is_kept_segment(segs.last()) {
            assert forall|j: int| 0 <= j < kept_segments(segs).len() implies is_name_like(#[trigger] kept_segments(segs)[j]) by {
                if j < k0.len() {
                    assert(kept_segments(segs)[j] == k0[j]);
                }
            }
        }
    }
}

/// Every component is a separator-free name that may follow others, except a root or a `.`
/// in first place.
pub proof fn lemma_components_shape(s: Seq<char>)
    ensures
        forall|i: int| 0 <= i < components(s).len() ==> is_name_like(#[trigger] components(s)[i])
            || (i == 0 && (components(s)[i] == root_dir() || components(s)[i] == cur_dir())),
{
    lemma_split_segments_no_separator(s);
    lemma_kept_segments_name_like(split_segments(s));
    lemma_split_segments_nonempty(s);
    let segs = split_segments(s);
    let head = if s.len() > 0 && s[0] == '/' {
        seq![root_dir()]
    } else if segs[0] == cur_dir() {
        seq![cur_dir()]
    } else {
        Seq::<Seq<char>>::empty()
    };
    let k = kept_segments(segs);
    assert(components(s) == head + k);
    assert forall|i: int| 0 <= i < components(s).len() implies is_name_like(#[trigger] components(s)[i])
        || (i == 0 && (components(s)[i] == root_dir() || components(s)[i] == cur_dir())) by {
        if i >= head.len() {
            assert(components(s)[i] == k[i - head.len()]);
        }
    }
}

proof fn lemma_split_append_name(s: Seq<char>, x: Seq<char>)
    requires
        no_separator(x),
    ensures
        split_segments(s + x) == split_segments(s).update(
            split_segments(s).len() - 1,
            split_segments(s).last() + x,
        ),
    decreases x.len(),
{
    lemma_split_segments_nonempty(s);
    if x.len() == 0 {
        assert(s + x =~= s);
        assert(split_segments(s).last() + x =~= split_segments(s).last());
        assert(split_segments(s).update(split_segments(s).len() - 1, split_segments(s).last())
            =~= split_segments(s));
    } else {
        let x0 = x.drop_last();
        assert forall|i: int| 0 <= i < x0.len() implies x0[i] != '/' by {
            assert(x0[i] == x[i]);
        }
        lemma_split_append_name(s, x0);
        assert((s + x).drop_last() =~= s + x0);
        assert((s + x).last() == x.last());
        assert(x.last() != '/');
        lemma_split_segments_nonempty(s + x0);
        let segs = split_segments(s);
        let n = segs.len() - 1;
        assert(split_segments(s + x0) == segs.update(n, segs.last() + x0));
        assert((segs.last() + x0).push(x.last()) =~= segs.last() + x);
        assert(split_segments(s + x) =~= segs.update(n, segs.last() + x));
    }
}

/// Appending a name after a separator adds exactly that component.
proof fn lemma_components_append(s: Seq<char>, x: Seq<char>)
    requires
        s.len() > 0,
        is_name_like(x),
    ensures
        components(s + seq!['/'] + x) == components(s).push(x),
        s.last() == '/' ==> components(s + x) == components(s).push(x),
{
    lemma_split_segments_nonempty(s);
    let segs = split_segments(s);
    // After a separator.
    let t = s.push('/');
    assert(s + seq!['/'] =~= t);
    assert(t.drop_last() =~= s);
    assert(split_segments(t) == segs.push(Seq::<char>::empty()));
    lemma_split_append_name(t, x);
    assert(Seq::<char>::empty() + x =~= x);
    let st = split_segments(s + seq!['/'] + x);
    assert(st =~= segs.push(x));
    assert((s + seq!['/'] + x)[0] == s[0]);
    assert(st[0] == segs[0]);
    assert(st.drop_last() =~= segs);
    assert(kept_segments(st) == kept_segments(segs).push(x));
    // Directly after a trailing separator.
    if s.last() == '/' {
        let init = split_segments(s.drop_last());
        lemma_split_segments_nonempty(s.drop_last());
        assert(segs == init.push(Seq::<char>::empty()));
        lemma_split_append_name(s, x);
        let sx = split_segments(s + x);
        assert(sx =~= init.push(x));
        assert((s + x)[0] == s[0]);
        assert(sx[0] == segs[0]);
        assert(segs.drop_last() =~= init);
        assert(sx.drop_last() =~= init);
        assert(kept_segments(segs) == kept_segments(init));
        assert(kept_segments(sx) == kept_segments(init).push(x));
    }
}

/// A trailing separator adds no component.
proof fn lemma_components_trailing_separator(s: Seq<char>)
    requires
        s.len() > 0,
    ensures
        components(s.push('/')) == components(s),
{
    lemma_split_segments_nonempty(s);
    let t = s.push('/');
    assert(t.drop_last() =~= s);
    let st = split_segments(t);
    assert(st == split_segments(s).push(Seq::<char>::empty()));
    assert(st.drop_last() =~= split_segments(s));
    assert(t[0] == s[0]);
    assert(st[0] == split_segments(s)[0]);
}

/// Pushing a name onto a path adds exactly that component.
pub proof fn lemma_push_name(buf: Seq<char>, x: Seq<char>)
    requires
        is_name_like(x),
    ensures
        components(push_path(buf, x)) == components(buf).push(x),
{
    assert(x[0] != '/');
    if buf.len() > 0 && buf.last() != '/' {
        lemma_components_append(buf, x);
    } else if buf.len() > 0 {
        lemma_components_append(buf, x);
    } else {
        assert(buf + x =~= x);
        assert(Seq::<char>::empty() + x =~= x);
        lemma_split_segments_nonempty(buf);
        lemma_split_append_name(buf, x);
        assert(split_segments(x) =~= seq![x]);
        assert(seq![x].drop_last() =~= Seq::<Seq<char>>::empty());
        assert(kept_segments(Seq::<Seq<char>>::empty()) =~= Seq::<Seq<char>>::empty());
        assert(seq![x].last() == x);
        assert(kept_segments(seq![x]) == kept_segments(seq![x].drop_last()).push(x));
        assert(kept_segments(seq![x]) =~= seq![x]);
        assert(split_segments(buf) =~= seq![Seq::<char>::empty()]);
        assert(seq![Seq::<char>::empty()].drop_last() =~= Seq::<Seq<char>>::empty());
        assert(components(buf) =~= Seq::<Seq<char>>::empty());
        assert(x != cur_dir());
    }
}

proof fn lemma_join_shape(c: Seq<Seq<char>>)
    requires
        c.len() > 0,
        forall|j: int| 0 <= j < c.len() ==> is_name_like(#[trigger] c[j]),
    ensures
        join_components(c).len() > 0,
        join_components(c)[0] == c[0][0],
        join_components(c).last() != '/',
    decreases c.len(),
{
    assert(is_name_like(c[0]));
    assert(is_name_like(c.last()));
    if c.len() > 1 {
        assert forall|j: int| 0 <= j < c.drop_last().len() implies is_name_like(#[trigger] c.drop_last()[j]) by {
            assert(c.drop_last()[j] == c[j]);
        }
        lemma_join_shape(c.drop_last());
        assert(c.drop_last()[0] == c[0]);
        let last = c.last();
        assert(last[last.len() - 1] != '/');
    } else {
        assert(c[0][c[0].len() - 1] != '/');
    }
}

/// Pushing the joined names `c` onto a path adds exactly those components.
pub proof fn lemma_push_joined(buf: Seq<char>, c: Seq<Seq<char>>)
    requires
        forall|j: int| 0 <= j < c.len() ==> is_name_like(#[trigger] c[j]),
    ensures
        components(push_path(buf, join_components(c))) == components(buf) + c,
    decreases c.len(),
{
    if c.len() == 0 {
        assert(join_components(c) =~= Seq::<char>::empty());
        if buf.len() > 0 && buf.last() != '/' {
            assert(buf + seq!['/'] + Seq::<char>::empty() =~= buf.push('/'));
            lemma_components_trailing_separator(buf);
        } else {
            assert(buf + Seq::<char>::empty() =~= buf);
        }
        assert(components(buf) + c =~= components(buf));
    } else if c.len() == 1 {
        assert(is_name_like(c[0]));
        lemma_push_name(buf, c[0]);
        assert(components(buf) + c =~= components(buf).push(c[0]));
    } else {
        let init = c.drop_last();
        let last = c.last();
        assert forall|j: int| 0 <= j < init.len() implies is_name_like(#[trigger] init[j]) by {
            assert(init[j] == c[j]);
        }
        assert(is_name_like(last));
        lemma_push_joined(buf, init);
        lemma_join_shape(init);
        let jn = join_components(init);
        let q = push_path(buf, jn);
        assert(join_components(c) == jn + seq!['/'] + last);
        assert((jn + seq!['/'] + last)[0] == jn[0]);
        assert(jn[0] != '/') by {
            assert(is_name_like(init[0]));
            assert(init[0][0] != '/');
        }
        if buf.len() > 0 && buf.last() != '/' {
            assert(push_path(buf, join_components(c)) =~= q + seq!['/'] + last);
        } else {
            assert(push_path(buf, join_components(c)) =~= q + seq!['/'] + last);
        }
        assert(q.len() > 0);
        lemma_components_append(q, last);
        assert(components(buf) + c =~= (components(buf) + init).push(last));
    }
}


/// The positions in `segs` of the pieces that name components (see [`kept_segments`]).
pub open spec fn kept_positions(segs: Seq<Seq<char>>) -> Seq<int>
    decreases segs.len(),
{
    if segs.len() == 0 {
        Seq::<int>::empty()
    } else {
        let k = kept_positions(segs.drop_last());
        if is_kept_segment(segs.last()) {
            k.push(segs.len() - 1)
        } else {
            k
        }
    }
}

/// The positions of the kept pieces are increasing, hold exactly the kept pieces, and the
/// pieces before each of them hold exactly the kept pieces before it.
pub proof fn lemma_kept_positions(segs: Seq<Seq<char>>)
    ensures
        kept_positions(segs).len() == kept_segments(segs).len(),
        forall|j: int|
            0 <= j < kept_positions(segs).len() ==> {
                &&& 0 <= #[trigger] kept_positions(segs)[j] < segs.len()
                &&& segs[kept_positions(segs)[j]] == kept_segments(segs)[j]
                &&& kept_segments(segs.take(kept_positions(segs)[j])) == kept_segments(segs).take(j)
            },
        forall|i: int, j: int|
            0 <= i < j < kept_positions(segs).len() ==> kept_positions(segs)[i] < kept_positions(
                segs,
            )[j],
    decreases segs.len(),
{
    if segs.len() > 0 {
        let init = segs.drop_last();
        lemma_kept_positions(init);
        let pi = kept_positions(init);
        let ki = kept_segments(init);
        let pos = kept_positions(segs);
        let kept = kept_segments(segs);
        assert forall|j: int| 0 <= j < pi.len() implies {
            &&& 0 <= #[trigger] pos[j] < segs.len()
            &&& segs[pos[j]] == kept[j]
            &&& kept_segments(segs.take(pos[j])) == kept.take(j)
        } by {
            assert(pos[j] == pi[j]);
            assert(kept[j] == ki[j]);
            assert(segs[pi[j]] == init[pi[j]]);
            assert(segs.take(pi[j]) =~= init.take(pi[j]));
            assert(kept.take(j) =~= ki.take(j));
        }
        if is_kept_segment(segs.last()) {
            let n = segs.len() - 1;
            assert(pos[pi.len() as int] == n);
            assert(segs.take(n) =~= init);
            assert(kept.take(pi.len() as int) =~= ki);
        }
    }
}

/// The kept pieces of two runs of pieces, one after the other.
pub proof fn lemma_kept_segments_concat(x: Seq<Seq<char>>, y: Seq<Seq<char>>)
    ensures
        kept_segments(x + y) == kept_segments(x) + kept_segments(y),
    decreases y.len(),
{
    if y.len() == 0 {
        assert(x + y =~= x);
        assert(kept_segments(x) + kept_segments(y) =~= kept_segments(x));
    } else {
        lemma_kept_segments_concat(x, y.drop_last());
        assert((x + y).drop_last() =~= x + y.drop_last());
        assert((x + y).last() == y.last());
        if is_kept_segment(y.last()) {
            assert(kept_segments(x) + kept_segments(y) =~= (kept_segments(x) + kept_segments(
                y.drop_last(),
            )).push(y.last()));
        } else {
            assert(kept_segments(x) + kept_segments(y) =~= kept_segments(x) + kept_segments(
                y.drop_last(),
            ));
        }
    }
}

/// The kept pieces from the `a`-th kept piece through the `b`-th are those kept pieces.
pub proof fn lemma_kept_between(segs: Seq<Seq<char>>, a: int, b: int)
    requires
        0 <= a <= b < kept_positions(segs).len(),
    ensures
        kept_positions(segs)[a] <= kept_positions(segs)[b],
        kept_segments(
            segs.subrange(kept_positions(segs)[a], kept_positions(segs)[b] + 1),
        ) == kept_segments(segs).subrange(a, b + 1),
{
    lemma_kept_positions(segs);
    let pos = kept_positions(segs);
    let kept = kept_segments(segs);
    let pa = pos[a];
    let pb = pos[b];
    if a < b {
        assert(pos[a] < pos[b]);
    }
    let whole = segs.take(pb + 1);
    let sub = segs.subrange(pa, pb + 1);
    assert(whole =~= segs.take(pa) + sub);
    assert(whole.drop_last() =~= segs.take(pb));
    assert(whole.last() == segs[pb]);
    assert(is_kept_segment(kept[b])) by {
        lemma_kept_segments_kept(segs);
    }
    assert(kept_segments(whole) == kept.take(b).push(kept[b]));
    assert(kept.take(b).push(kept[b]) =~= kept.take(b + 1));
    lemma_kept_segments_concat(segs.take(pa), sub);
    assert(kept.take(a).len() == a);
    assert(kept_segments(sub) =~= kept.take(b + 1).skip(a));
    assert(kept.take(b + 1).skip(a) =~= kept.subrange(a, b + 1));
}

/// Every kept piece is a piece that names a component.
pub proof fn lemma_kept_segments_kept(segs: Seq<Seq<char>>)
    ensures
        forall|j: int|
            0 <= j < kept_segments(segs).len() ==> is_kept_segment(#[trigger] kept_segments(segs)[j]),
    decreases segs.len(),
{
    if segs.len() > 0 {
        lemma_kept_segments_kept(segs.drop_last());
        let k0 = kept_segments(segs.drop_last());
        assert forall|j: int|
            0 <= j < kept_segments(segs).len() implies is_kept_segment(
            #[trigger] kept_segments(segs)[j],
        ) by {
            if j < k0.len() {
                assert(kept_segments(segs)[j] == k0[j]);
            }
        }
    }
}

/// The first piece of a path that starts with neither a separator nor nothing starts with
/// the path's first character.
pub proof fn lemma_first_segment(s: Seq<char>)
    requires
        s.len() > 0,
        s[0] != '/',
    ensures
        split_segments(s)[0].len() > 0,
        split_segments(s)[0][0] == s[0],
    decreases s.len(),
{
    lemma_split_segments_nonempty(s);
    let init = split_segments(s.drop_last());
    lemma_split_segments_nonempty(s.drop_last());
    if s.len() == 1 {
        assert(s.drop_last() =~= Seq::<char>::empty());
        assert(split_segments(s)[0] == Seq::<char>::empty().push(s[0]));
    } else {
        lemma_first_segment(s.drop_last());
        assert(s.drop_last()[0] == s[0]);
        if s.last() != '/' && init.len() == 1 {
            assert(split_segments(s)[0] == init[0].push(s.last()));
        }
    }
}

/// The text before the first component: `/` for the root, `.` for a leading current
/// directory, or nothing.
pub open spec fn head_text(s: Seq<char>) -> Seq<char> {
    if s.len() > 0 && s[0] == '/' {
        seq!['/']
    } else if split_segments(s)[0] == cur_dir() {
        cur_dir()
    } else {
        Seq::<char>::empty()
    }
}

/// The text of the parent of the path `s`, as `Path::parent` gives it: the text up to the end of
/// the component before the last one, kept as written (inner `.` pieces and repeated
/// separators included); the root or leading `.` where the last component is the only one
/// after them; `None` for the root alone or the empty path.
pub open spec fn parent_text(s: Seq<char>) -> Option<Seq<char>> {
    let segs = split_segments(s);
    let pos = kept_positions(segs);
    let m = pos.len();
    if m >= 2 {
        Some(join_components(segs.take(pos[m - 2] + 1)))
    } else if m == 1 {
        Some(head_text(s))
    } else if head_text(s) == cur_dir() {
        Some(Seq::<char>::empty())
    } else {
        None
    }
}

/// The first character of joined pieces is that of the first piece.
proof fn lemma_join_first(c: Seq<Seq<char>>)
    requires
        c.len() > 0,
        c[0].len() > 0,
    ensures
        join_components(c).len() > 0,
        join_components(c)[0] == c[0][0],
    decreases c.len(),
{
    if c.len() > 1 {
        assert(c.drop_last()[0] == c[0]);
        lemma_join_first(c.drop_last());
    }
}

/// Appending a separator and a piece adds the piece as a component when it names one, and
/// nothing otherwise.
proof fn lemma_components_append_piece(s: Seq<char>, x: Seq<char>)
    requires
        s.len() > 0,
        no_separator(x),
    ensures
        components(s + seq!['/'] + x) == if is_kept_segment(x) {
            components(s).push(x)
        } else {
            components(s)
        },
{
    lemma_split_segments_nonempty(s);
    let segs = split_segments(s);
    let t = s.push('/');
    assert(s + seq!['/'] =~= t);
    assert(t.drop_last() =~= s);
    assert(split_segments(t) == segs.push(Seq::<char>::empty()));
    lemma_split_append_name(t, x);
    assert(Seq::<char>::empty() + x =~= x);
    let st = split_segments(s + seq!['/'] + x);
    assert(st =~= segs.push(x));
    assert((s + seq!['/'] + x)[0] == s[0]);
    assert(st[0] == segs[0]);
    assert(st.drop_last() =~= segs);
}

/// Pushing pieces joined by separators onto a path adds the components those pieces name.
pub proof fn lemma_push_pieces(buf: Seq<char>, p: Seq<Seq<char>>)
    requires
        p.len() > 0,
        forall|j: int| 0 <= j < p.len() ==> no_separator(#[trigger] p[j]),
        is_kept_segment(p[0]),
    ensures
        components(push_path(buf, join_components(p))) == components(buf) + kept_segments(p),
    decreases p.len(),
{
    assert(no_separator(p[0]));
    if p.len() == 1 {
        assert(join_components(p) == p[0]);
        lemma_push_name(buf, p[0]);
        assert(p.drop_last() =~= Seq::<Seq<char>>::empty());
        assert(p.last() == p[0]);
        assert(kept_segments(p.drop_last()) =~= Seq::<Seq<char>>::empty());
        assert(kept_segments(p) == kept_segments(p.drop_last()).push(p.last()));
        assert(kept_segments(p) =~= seq![p[0]]);
        assert(components(buf) + kept_segments(p) =~= components(buf).push(p[0]));
    } else {
        let init = p.drop_last();
        let last = p.last();
        assert forall|j: int| 0 <= j < init.len() implies no_separator(#[trigger] init[j]) by {
            assert(init[j] == p[j]);
        }
        assert(init[0] == p[0]);
        lemma_push_pieces(buf, init);
        lemma_join_first(init);
        let jn = join_components(init);
        let q = push_path(buf, jn);
        assert(join_components(p) == jn + seq!['/'] + last);
        assert((jn + seq!['/'] + last)[0] == jn[0]);
        assert(jn[0] != '/');
        assert(push_path(buf, join_components(p)) =~= q + seq!['/'] + last);
        assert(q.len() > 0);
        assert(no_separator(last)) by {
            assert(last == p[p.len() - 1]);
        }
        lemma_components_append_piece(q, last);
        if is_kept_segment(last) {
            assert(components(buf) + kept_segments(p) =~= (components(buf) + kept_segments(
                init,
            )).push(last));
        }
    }
}


/// The positions of the pieces of `segs` that name components (see [`kept_positions`]).
pub fn kept_piece_positions(segs: &Vec<Vec<char>>) -> (r: Vec<usize>)
    ensures
        r@.len() == kept_positions(parts_view(segs@)).len(),
        forall|j: int| 0 <= j < r@.len() ==> r@[j] as int == kept_positions(parts_view(segs@))[j],
{
    let ghost pv = parts_view(segs@);
    let mut r: Vec<usize> = Vec::new();
    let mut j: usize = 0;
    assert(pv.take(0) =~= Seq::<Seq<char>>::empty());
    while j < segs.len()
        invariant
            j <= segs@.len(),
            pv == parts_view(segs@),
            r@.len() == kept_positions(pv.take(j as int)).len(),
            forall|i: int| 0 <= i < r@.len() ==> r@[i] as int == kept_positions(pv.take(j as int))[i],
        decreases segs@.len() - j,
    {
        assert(pv.take(j + 1).drop_last() =~= pv.take(j as int));
        assert(pv.take(j + 1).last() == segs@[j as int]@);
        if segs[j].len() > 0 && !is_cur_dir(&segs[j]) {
            r.push(j);
        }
        j = j + 1;
    }
    assert(pv.take(segs@.len() as int) =~= pv);
    r
}

/// The pieces `c[from..to]` joined by separators.
pub fn join_pieces(c: &Vec<Vec<char>>, from: usize, to: usize) -> (r: Vec<char>)
    requires
        from <= to <= c@.len(),
    ensures
        r@ == join_components(parts_view(c@).subrange(from as int, to as int)),
{
    let ghost pv = parts_view(c@);
    let mut out: Vec<char> = Vec::new();
    let mut k = from;
    assert(pv.subrange(from as int, from as int) =~= Seq::<Seq<char>>::empty());
    while k < to
        invariant
            from <= k <= to <= c@.len(),
            pv == parts_view(c@),
            out@ == join_components(pv.subrange(from as int, k as int)),
        decreases to - k,
    {
        let ghost part = pv.subrange(from as int, k + 1);
        assert(part.drop_last() =~= pv.subrange(from as int, k as int));
        assert(part.last() == c@[k as int]@);
        if k > from {
            out.push('/');
        } else {
            assert(part =~= seq![c@[k as int]@]);
        }
        append_chars(&mut out, &c[k]);
        k = k + 1;
    }
    out
}

/// The text before the first component of `cs` (see [`head_text`]), given its pieces.
fn head_chars(cs: &Vec<char>, segs: &Vec<Vec<char>>) -> (r: Vec<char>)
    requires
        parts_view(segs@) == split_segments(cs@),
    ensures
        r@ == head_text(cs@),
{
    proof {
        lemma_split_segments_nonempty(cs@);
        assert(segs@[0]@ == split_segments(cs@)[0]);
    }
    if cs.len() > 0 && cs[0] == '/' {
        single_char('/')
    } else if is_cur_dir(&segs[0]) {
        single_char('.')
    } else {
        Vec::new()
    }
}

/// The text of the parent of the path `cs` (see [`parent_text`]).
pub fn parent_text_of(cs: &Vec<char>) -> (r: Option<Vec<char>>)
    ensures
        match parent_text(cs@) {
            Some(p) => r is Some && r->0@ == p,
            None => r is None,
        },
{
    let segs = split_at_separators(cs);
    let pos = kept_piece_positions(&segs);
    proof {
        lemma_kept_positions(split_segments(cs@));
    }
    let m = pos.len();
    if m >= 2 {
        let end = pos[m - 2] + 1;
        let r = join_pieces(&segs, 0, end);
        proof {
            assert(parts_view(segs@).subrange(0, end as int) =~= split_segments(cs@).take(
                end as int,
            ));
        }
        Some(r)
    } else if m == 1 {
        Some(head_chars(cs, &segs))
    } else {
        let head = head_chars(cs, &segs);
        if head.len() == 1 && head[0] == '.' {
            proof {
                assert(head@ =~= cur_dir());
            }
            Some(Vec::new())
        } else {
            proof {
                if head@ == cur_dir() {
                    assert(head@[0] == '.');
                }
            }
            None
        }
    }
}

} // verus!
