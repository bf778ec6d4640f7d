use crate::paths::{
    components, cur_dir, extension_of_name, file_name, file_name_of, is_kept_segment,
    is_name_like, is_normal, join_components, join_pieces, kept_piece_positions, kept_positions,
    kept_segments, lemma_components_shape, lemma_first_segment, lemma_kept_between,
    lemma_kept_positions, lemma_kept_segments_kept, lemma_last_dot_bounds, lemma_push_joined,
    lemma_push_name, lemma_push_pieces, lemma_split_segments_nonempty,
    lemma_split_segments_no_separator, name_stem, no_separator, parent_text, parent_text_of,
    parts_view, path_components, path_extension, push_path, push_path_chars, root_dir,
    split_at_separators, split_segments, stem_of_name, strip_components, strip_prefix,
};
use crate::text::{chars_of, string_from_chars};
use vstd::prelude::*;

verus! {

/// Settings for one conversion: the longest allowed side in pixels and the WebP quality.
#[derive(Clone, Copy, Debug)]
pub struct ConversionConfig {
    pub max_size: u32,
    pub quality: u8,
}

impl Default for ConversionConfig {
    /// A 2048-pixel bound and quality 80.
    fn default() -> (r: Self)
        ensures
            r.max_size == 2048,
            r.quality == 80,
    {
        ConversionConfig { max_size: 2048, quality: 80 }
    }
}

/// The report on one converted (or failed) file.
#[derive(Clone, Debug)]
pub struct ConversionResult {
    pub success: bool,
    pub input: String,
    pub output: String,
    pub original_size: Option<u64>,
    pub output_size: Option<u64>,
    pub error: Option<String>,
}

/// The character code of `c` with ASCII upper case letters mapped to lower case.
pub open spec fn lower_code(c: char) -> u32 {
    if 65 <= (c as u32) <= 90 {
        ((c as u32) + 32) as u32
    } else {
        c as u32
    }
}

/// Whether `e` spells the lower case word `w`, ignoring ASCII case.
pub open spec fn spells(e: Seq<char>, w: Seq<char>) -> bool {
    &&& e.len() == w.len()
    &&& forall|i: int| 0 <= i < e.len() ==> lower_code(e[i]) == w[i] as u32
}

/// Whether an extension, lower-cased, is one of `jpg`, `jpeg`, `png`, `gif`, `bmp`, `webp`.
///
/// Only ASCII letters are folded. Unicode lower-casing agrees on this list: no other
/// character lower-cases to one of these letters or into a single ASCII letter of them.
pub open spec fn is_supported_extension(e: Seq<char>) -> bool {
    ||| spells(e, seq!['j', 'p', 'g'])
    ||| spells(e, seq!['j', 'p', 'e', 'g'])
    ||| spells(e, seq!['p', 'n', 'g'])
    ||| spells(e, seq!['g', 'i', 'f'])
    ||| spells(e, seq!['b', 'm', 'p'])
    ||| spells(e, seq!['w', 'e', 'b', 'p'])
}

/// Whether the path names a file with a supported image extension.
pub open spec fn is_supported_path(path: Seq<char>) -> bool {
    match path_extension(path) {
        Some(e) => is_supported_extension(e),
        None => false,
    }
}

fn lower_code_of(c: char) -> (r: u32)
    ensures
        r == lower_code(c),
{
    let v = c as u32;
    if 65 <= v && v <= 90 {
        v + 32
    } else {
        v
    }
}

/// Whether `e` spells the lower case word `w`, ignoring ASCII case.
fn spells_word(e: &Vec<char>, w: &[char]) -> (r: bool)
    ensures
        r == spells(e@, w@),
{
    if e.len() != w.len() {
        return false;
    }
    let mut i: usize = 0;
    while i < e.len()
        invariant
            e@.len() == w@.len(),
            i <= e@.len(),
            forall|k: int| 0 <= k < i ==> lower_code(e@[k]) == w@[k] as u32,
        decreases e@.len() - i,
    {
        if lower_code_of(e[i]) != w[i] as u32 {
            return false;
        }
        i = i + 1;
    }
    true
}

/// Whether an extension is supported (see [`is_supported_extension`]).
pub fn is_supported_extension_chars(e: &Vec<char>) -> (r: bool)
    ensures
        r == is_supported_extension(e@),
{
    let jpg = ['j', 'p', 'g'];
    let jpeg = ['j', 'p', 'e', 'g'];
    let png = ['p', 'n', 'g'];
    let gif = ['g', 'i', 'f'];
    let bmp = ['b', 'm', 'p'];
    let webp = ['w', 'e', 'b', 'p'];
    assert(jpg@ =~= seq!['j', 'p', 'g']);
    assert(jpeg@ =~= seq!['j', 'p', 'e', 'g']);
    assert(png@ =~= seq!['p', 'n', 'g']);
    assert(gif@ =~= seq!['g', 'i', 'f']);
    assert(bmp@ =~= seq!['b', 'm', 'p']);
    assert(webp@ =~= seq!['w', 'e', 'b', 'p']);
    spells_word(e, &jpg) || spells_word(e, &jpeg) || spells_word(e, &png) || spells_word(e, &gif)
        || spells_word(e, &bmp) || spells_word(e, &webp)
}

/// Whether `path` names a file whose extension, lower-cased, is `jpg`, `jpeg`, `png`, `gif`,
/// `bmp` or `webp`.
pub fn is_supported_image(path: &str) -> (r: bool)
    ensures
        r == is_supported_path(path@),
{
    let cs = chars_of(path);
    let comps = path_components(&cs);
    match file_name_of(&comps) {
        Some(name) => match extension_of_name(&name) {
            Some(e) => is_supported_extension_chars(&e),
            None => false,
        },
        None => false,
    }
}

/// The suffix `.webp`.
pub open spec fn webp_suffix() -> Seq<char> {
    seq!['.', 'w', 'e', 'b', 'p']
}

/// The part of `input` below `source_root`; when `source_root` is no whole-component prefix
/// of `input`, just the file name of `input` (or nothing).
pub open spec fn relative_components(input: Seq<char>, source_root: Seq<char>) -> Seq<Seq<char>> {
    match strip_prefix(components(input), components(source_root)) {
        Some(rest) => rest,
        None => match file_name(components(input)) {
            Some(n) => seq![n],
            None => Seq::<Seq<char>>::empty(),
        },
    }
}

/// The output file name for a relative path: its file stem (or nothing) and `.webp`.
pub open spec fn webp_file_name(rel: Seq<Seq<char>>) -> Seq<char> {
    let stem = match file_name(rel) {
        Some(n) => name_stem(n),
        None => Seq::<char>::empty(),
    };
    stem + webp_suffix()
}

/// The text of the directories between `source_root` and `input`, as
/// `input.strip_prefix(source_root)` followed by `parent` gives it: the pieces of `input` from
/// the first component below the root through the one before the file name, kept as written
/// (inner `.` pieces and repeated separators included); with an empty root, the parent of
/// `input` itself; nothing when `input` is not below `source_root`.
pub open spec fn rel_dir_text(input: Seq<char>, source_root: Seq<char>) -> Seq<char> {
    let base = components(source_root);
    match strip_prefix(components(input), base) {
        None => Seq::<char>::empty(),
        Some(rest) => if base.len() == 0 {
            match parent_text(input) {
                Some(p) => p,
                None => Seq::<char>::empty(),
            }
        } else if rest.len() >= 2 {
            let segs = split_segments(input);
            let pos = kept_positions(segs);
            let m = pos.len();
            join_components(segs.subrange(pos[m - rest.len()], pos[m - 2] + 1))
        } else {
            Seq::<char>::empty()
        },
    }
}

/// Where the WebP version of `input` goes: `output_dir`, then the directories of `input`
/// below `source_root`, then the file stem with the extension `.webp`.
pub open spec fn output_path(
    input: Seq<char>,
    source_root: Seq<char>,
    output_dir: Seq<char>,
) -> Seq<char> {
    let rel = relative_components(input, source_root);
    push_path(push_path(output_dir, rel_dir_text(input, source_root)), webp_file_name(rel))
}

/// The directory that holds the file at `path`, when the path has a parent.
pub open spec fn containing_dir(path: Seq<char>) -> Option<Seq<char>> {
    parent_text(path)
}

/// A path below a non-empty root keeps no more components than the pieces it names.
proof fn lemma_rest_within_pieces(input: Seq<char>, source_root: Seq<char>)
    requires
        components(source_root).len() >= 1,
        strip_prefix(components(input), components(source_root)) is Some,
    ensures
        ({
            let rest = strip_prefix(components(input), components(source_root))->0;
            let segs = split_segments(input);
            &&& rest.len() <= kept_positions(segs).len()
            &&& rest == kept_segments(segs).skip(kept_positions(segs).len() - rest.len())
        }),
{
    let segs = split_segments(input);
    lemma_kept_positions(segs);
    lemma_split_segments_nonempty(input);
    let head = if input.len() > 0 && input[0] == '/' {
        seq![root_dir()]
    } else if segs[0] == cur_dir() {
        seq![cur_dir()]
    } else {
        Seq::<Seq<char>>::empty()
    };
    let kept = kept_segments(segs);
    let c = components(input);
    assert(c == head + kept);
    let k = components(source_root).len();
    let rest = c.skip(k as int);
    assert(rest =~= kept.skip(k - head.len()));
}

/// The text of the directories of `input` below `source_root` (see [`rel_dir_text`]), given
/// the components of the root and those of `input` below it.
fn rel_dir_chars(
    input_cs: &Vec<char>,
    root_cs: &Vec<char>,
    root_comps: &Vec<Vec<char>>,
    rest: &Vec<Vec<char>>,
) -> (r: Vec<char>)
    requires
        parts_view(root_comps@) == components(root_cs@),
        strip_prefix(components(input_cs@), components(root_cs@)) == Some(parts_view(rest@)),
    ensures
        r@ == rel_dir_text(input_cs@, root_cs@),
{
    if root_comps.len() == 0 {
        match parent_text_of(input_cs) {
            Some(p) => p,
            None => Vec::new(),
        }
    } else if rest.len() >= 2 {
        let segs = split_at_separators(input_cs);
        let pos = kept_piece_positions(&segs);
        proof {
            lemma_rest_within_pieces(input_cs@, root_cs@);
            lemma_kept_positions(split_segments(input_cs@));
        }
        let m = pos.len();
        let a = m - rest.len();
        proof {
            lemma_kept_between(split_segments(input_cs@), a as int, m - 2);
        }
        let from = pos[a];
        let to = pos[m - 2] + 1;
        join_pieces(&segs, from, to)
    } else {
        Vec::new()
    }
}

/// The path of the WebP file for `input`, mirroring its place below `source_root` inside
/// `output_dir`.
pub fn output_path_for(input: &str, source_root: &str, output_dir: &str) -> (r: String)
    ensures
        r@ == output_path(input@, source_root@, output_dir@),
{
    let input_cs = chars_of(input);
    let root_cs = chars_of(source_root);
    let out_cs = chars_of(output_dir);
    let input_comps = path_components(&input_cs);
    let root_comps = path_components(&root_cs);
    let (rel, dir_text): (Vec<Vec<char>>, Vec<char>) = match strip_components(
        &input_comps,
        &root_comps,
    ) {
        Some(rest) => {
            let d = rel_dir_chars(&input_cs, &root_cs, &root_comps, &rest);
            (rest, d)
        },
        None => match file_name_of(&input_comps) {
            Some(n) => {
                let mut v: Vec<Vec<char>> = Vec::new();
                v.push(n);
                proof {
                    assert(parts_view(v@) =~= seq![v@[0]@]);
                }
                (v, Vec::new())
            },
            None => {
                let v: Vec<Vec<char>> = Vec::new();
                assert(parts_view(v@) =~= Seq::<Seq<char>>::empty());
                (v, Vec::new())
            },
        },
    };
    proof {
        assert(dir_text@ == rel_dir_text(input@, source_root@));
        assert(parts_view(rel@) == relative_components(input@, source_root@));
    }
    let mut name: Vec<char> = match file_name_of(&rel) {
        Some(n) => stem_of_name(&n),
        None => Vec::new(),
    };
    name.push('.');
    name.push('w');
    name.push('e');
    name.push('b');
    name.push('p');
    proof {
        let stem = match file_name(parts_view(rel@)) {
            Some(n) => name_stem(n),
            None => Seq::<char>::empty(),
        };
        assert(name@ =~= stem + webp_suffix());
    }
    let dir_path = push_path_chars(&out_cs, &dir_text);
    let full = push_path_chars(&dir_path, &name);
    string_from_chars(full.as_slice())
}

/// The directory that holds `path` (see [`containing_dir`]).
pub fn containing_dir_of(path: &str) -> (r: Option<String>)
    ensures
        match containing_dir(path@) {
            Some(d) => r is Some && r->0@ == d,
            None => r is None,
        },
{
    let cs = chars_of(path);
    match parent_text_of(&cs) {
        Some(p) => Some(string_from_chars(p.as_slice())),
        None => None,
    }
}

/// The output path always names a file with the extension `.webp`.
pub proof fn lemma_output_path_ends_with_webp(
    input: Seq<char>,
    source_root: Seq<char>,
    output_dir: Seq<char>,
)
    ensures
        output_path(input, source_root, output_dir).len() >= 5,
        output_path(input, source_root, output_dir).skip(
            output_path(input, source_root, output_dir).len() - 5,
        ) == webp_suffix(),
{
    let rel = relative_components(input, source_root);
    let base = push_path(output_dir, rel_dir_text(input, source_root));
    let name = webp_file_name(rel);
    let out = push_path(base, name);
    let stem = match file_name(rel) {
        Some(n) => name_stem(n),
        None => Seq::<char>::empty(),
    };
    if name.len() > 0 && name[0] == '/' {
        assert(out == name);
    } else if base.len() > 0 && base.last() != '/' {
        assert(out == base + seq!['/'] + name);
    } else {
        assert(out == base + name);
    }
    assert(out.skip(out.len() - 5) =~= webp_suffix());
}

/// An image outside the source root goes directly into the output directory, under its
/// own stem with the extension `.webp`.
pub proof fn lemma_output_outside_root(
    input: Seq<char>,
    source_root: Seq<char>,
    output_dir: Seq<char>,
    name: Seq<char>,
)
    requires
        strip_prefix(components(input), components(source_root)) is None,
        file_name(components(input)) == Some(name),
    ensures
        output_path(input, source_root, output_dir) == push_path(
            push_path(output_dir, Seq::<char>::empty()),
            name_stem(name) + webp_suffix(),
        ),
{
    let rel = seq![name];
    assert(file_name(rel) == Some(name));
}

/// Whether a file is supported does not depend on the ASCII case of its extension.
pub proof fn lemma_support_ignores_ascii_case(a: Seq<char>, b: Seq<char>)
    requires
        a.len() == b.len(),
        forall|i: int| 0 <= i < a.len() ==> lower_code(a[i]) == lower_code(b[i]),
    ensures
        is_supported_extension(a) == is_supported_extension(b),
{
}

/// The output mirrors the source tree: an image whose components below the source root are
/// `dirs` then `name` is written to the output directory's components, then `dirs`, then the
/// stem of `name` with `.webp`.
pub proof fn lemma_output_components_mirror_source(
    input: Seq<char>,
    source_root: Seq<char>,
    output_dir: Seq<char>,
    dirs: Seq<Seq<char>>,
    name: Seq<char>,
)
    requires
        strip_prefix(components(input), components(source_root)) == Some(dirs.push(name)),
        is_normal(name),
        dirs.len() == 0 || (dirs[0] != root_dir() && dirs[0] != cur_dir()),
    ensures
        components(output_path(input, source_root, output_dir)) == components(output_dir) + dirs
            + seq![name_stem(name) + webp_suffix()],
{
    lemma_components_shape(input);
    let c = components(input);
    let base = components(source_root);
    let k = base.len() as int;
    let rel = dirs.push(name);
    assert(c.skip(k) == rel);
    assert forall|j: int| 0 <= j < dirs.len() implies is_name_like(#[trigger] dirs[j]) by {
        assert(dirs[j] == rel[j]);
        assert(rel[j] == c[k + j]);
        assert(is_name_like(c[k + j]) || (k + j == 0 && (c[k + j] == root_dir() || c[k + j]
            == cur_dir())));
    }
    let n = dirs.len() as int;
    assert(rel[n] == c[k + n]);
    assert(is_name_like(name)) by {
        assert(is_name_like(c[k + n]) || (k + n == 0 && (c[k + n] == root_dir() || c[k + n]
            == cur_dir())));
    }
    assert(relative_components(input, source_root) == rel);
    assert(rel.drop_last() =~= dirs);
    assert(file_name(rel) == Some(name));
    // The directories' text adds exactly `dirs` to the output directory.
    let segs = split_segments(input);
    let pos = kept_positions(segs);
    let m = pos.len() as int;
    let kept = kept_segments(segs);
    lemma_kept_positions(segs);
    lemma_kept_segments_kept(segs);
    lemma_split_segments_nonempty(input);
    lemma_split_segments_no_separator(input);
    let dir_text = rel_dir_text(input, source_root);
    let q = push_path(output_dir, dir_text);
    if dirs.len() == 0 {
        if k == 0 {
            assert(c == rel);
            assert(c.len() == 1);
            // The only component is the name itself, so the path has no head.
            lemma_head_free(input);
            assert(m == 1);
            assert(dir_text == Seq::<char>::empty());
        }
        assert(dir_text == Seq::<char>::empty());
        lemma_push_joined(output_dir, dirs);
        assert(join_components(dirs) =~= Seq::<char>::empty());
    } else {
        let a: int;
        let b: int = m - 2;
        if k == 0 {
            assert(c == rel);
            lemma_head_free(input);
            assert(c == kept);
            a = 0;
            lemma_first_segment(input);
            assert(is_kept_segment(segs[0]));
            assert(m >= 2);
            let p = segs.take(pos[b] + 1);
            assert(dir_text == join_components(p));
            assert(p[0] == segs[0]);
            assert forall|j: int| 0 <= j < p.len() implies no_separator(#[trigger] p[j]) by {
                assert(p[j] == segs[j]);
            }
            lemma_push_pieces(output_dir, p);
            assert(p.drop_last() =~= segs.take(pos[b]));
            assert(p.last() == segs[pos[b]]);
            assert(kept_segments(p) == kept.take(b).push(kept[b]));
            assert(kept.take(b).push(kept[b]) =~= kept.take(b + 1));
            assert(dirs =~= kept.take(b + 1));
        } else {
            lemma_rest_within_pieces(input, source_root);
            assert(rel == kept.skip(m - rel.len()));
            a = m - rel.len();
            lemma_kept_between(segs, a, b);
            let p = segs.subrange(pos[a], pos[b] + 1);
            assert(dir_text == join_components(p));
            assert(p[0] == segs[pos[a]]);
            assert(is_kept_segment(kept[a]));
            assert forall|j: int| 0 <= j < p.len() implies no_separator(#[trigger] p[j]) by {
                assert(p[j] == segs[pos[a] + j]);
            }
            lemma_push_pieces(output_dir, p);
            assert(dirs =~= kept.subrange(a, b + 1));
        }
    }
    assert(components(q) == components(output_dir) + dirs);
    let file = name_stem(name) + webp_suffix();
    lemma_last_dot_bounds(name);
    assert forall|i: int| 0 <= i < file.len() implies file[i] != '/' by {
        if i < name_stem(name).len() {
            assert(name_stem(name)[i] == name[i]);
        }
    }
    assert(file != cur_dir()) by {
        assert(file.len() >= 5);
    }
    lemma_push_name(q, file);
    assert(components(output_dir) + dirs + seq![file] =~= (components(output_dir) + dirs).push(file));
}

/// A path whose first component is a normal name (or `..`) has no root and no leading `.`:
/// its components are exactly its kept pieces.
proof fn lemma_head_free(s: Seq<char>)
    requires
        components(s).len() > 0,
        components(s)[0] != root_dir(),
        components(s)[0] != cur_dir(),
    ensures
        components(s) == kept_segments(split_segments(s)),
        s.len() > 0 && s[0] != '/' && split_segments(s)[0] != cur_dir(),
{
    lemma_split_segments_nonempty(s);
    let segs = split_segments(s);
    if s.len() > 0 && s[0] == '/' {
        assert(components(s)[0] == root_dir());
    } else if segs[0] == cur_dir() {
        assert(components(s)[0] == cur_dir());
    } else {
        assert(components(s) =~= kept_segments(segs));
        if s.len() == 0 {
            assert(segs =~= seq![Seq::<char>::empty()]);
            assert(segs.drop_last() =~= Seq::<Seq<char>>::empty());
            assert(segs.last() == Seq::<char>::empty());
            assert(!is_kept_segment(segs.last()));
            assert(kept_segments(segs) == kept_segments(segs.drop_last()));
            assert(kept_segments(segs) =~= Seq::<Seq<char>>::empty());
        }
    }
}

} // verus!
