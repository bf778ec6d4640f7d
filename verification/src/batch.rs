use crate::converter::{
    containing_dir, containing_dir_of, is_supported_image, is_supported_path, ConversionResult,
};
use vstd::prelude::*;
use vstd::multiset::Multiset;
use vstd::seq_lib::{to_multiset_build, to_multiset_insert};

verus! {

/// The character sequences of a list of strings.
pub open spec fn strings_view(v: Seq<String>) -> Seq<Seq<char>> {
    v.map_values(|s: String| s@)
}

/// What a directory walk reports of one entry: its path, whether it is a regular file, and
/// its modification time in nanoseconds from the Unix epoch (negative before it), when known.
pub struct DirEntryInfo {
    pub path: String,
    pub is_file: bool,
    pub modified: Option<i128>,
}

/// Whether a walked entry is an image to convert: a regular file with a supported extension
/// that, when a cutoff is given, was modified strictly after it.
pub open spec fn entry_selected(e: DirEntryInfo, since: Option<i128>) -> bool {
    &&& e.is_file
    &&& is_supported_path(e.path@)
    &&& match since {
        None => true,
        Some(s) => e.modified matches Some(m) && m > s,
    }
}

/// The paths of the selected entries, in walk order.
pub open spec fn selected_paths(entries: Seq<DirEntryInfo>, since: Option<i128>) -> Seq<Seq<char>>
    decreases entries.len(),
{
    if entries.len() == 0 {
        Seq::<Seq<char>>::empty()
    } else {
        let init = selected_paths(entries.drop_last(), since);
        if entry_selected(entries.last(), since) {
            init.push(entries.last().path@)
        } else {
            init
        }
    }
}

/// Picks, from the entries of a recursive directory walk, the supported images newer than
/// `since` (all of them when `since` is `None`), keeping the walk's order.
pub fn select_images(entries: &Vec<DirEntryInfo>, since: Option<i128>) -> (r: Vec<String>)
    ensures
        strings_view(r@) == selected_paths(entries@, since),
{
    let mut r: Vec<String> = Vec::new();
    let mut i: usize = 0;
    while i < entries.len()
        invariant
            i <= entries@.len(),
            strings_view(r@) == selected_paths(entries@.take(i as int), since),
        decreases entries@.len() - i,
    {
        let e = &entries[i];
        assert(entries@.take(i + 1).drop_last() =~= entries@.take(i as int));
        let newer = match since {
            None => true,
            Some(s) => match e.modified {
                Some(m) => m > s,
                None => false,
            },
        };
        if e.is_file && is_supported_image(e.path.as_str()) && newer {
            let ghost before = r@;
            r.push(e.path.clone());
            assert(strings_view(r@) =~= strings_view(before).push(e.path@));
        }
        i = i + 1;
    }
    assert(entries@.take(entries@.len() as int) =~= entries@);
    r
}

/// What one path handed to a batch conversion turned out to be.
pub enum InputKind {
    /// A directory, with the images a walk of it selected.
    Directory { images: Vec<String> },
    /// A regular file.
    File,
    /// Neither (missing, or another kind of file).
    Other,
}

/// A path handed to a batch conversion, with what it is.
pub struct InputPath {
    pub path: String,
    pub kind: InputKind,
}

/// The directory holding a file, or the empty path when it has none.
pub open spec fn parent_or_empty(path: Seq<char>) -> Seq<char> {
    match containing_dir(path) {
        Some(d) => d,
        None => Seq::<char>::empty(),
    }
}

/// The `(image, source root)` pairs one input contributes: every image found in a directory
/// with the directory as root, or a supported file with its own directory as root.
pub open spec fn sources_of(input: InputPath) -> Seq<(Seq<char>, Seq<char>)> {
    match input.kind {
        InputKind::Directory { images } => strings_view(images@).map_values(
            |img: Seq<char>| (img, input.path@),
        ),
        InputKind::File => if is_supported_path(input.path@) {
            seq![(input.path@, parent_or_empty(input.path@))]
        } else {
            Seq::<(Seq<char>, Seq<char>)>::empty()
        },
        InputKind::Other => Seq::<(Seq<char>, Seq<char>)>::empty(),
    }
}

/// The pairs of all inputs, in order.
pub open spec fn all_sources(inputs: Seq<InputPath>) -> Seq<(Seq<char>, Seq<char>)>
    decreases inputs.len(),
{
    if inputs.len() == 0 {
        Seq::<(Seq<char>, Seq<char>)>::empty()
    } else {
        all_sources(inputs.drop_last()) + sources_of(inputs.last())
    }
}

/// The character sequences of a list of string pairs.
pub open spec fn pairs_view(v: Seq<(String, String)>) -> Seq<(Seq<char>, Seq<char>)> {
    v.map_values(|p: (String, String)| (p.0@, p.1@))
}

/// Under a cutoff, no file modified at or before it, and no file whose modification time is
/// unknown, is selected; without a cutoff every regular file with a supported extension is.
pub proof fn lemma_selection_cutoff(entries: Seq<DirEntryInfo>, since: i128)
    ensures
        forall|p: Seq<char>| #[trigger] selected_paths(entries, Some(since)).contains(p)
            ==> exists|i: int| 0 <= i < entries.len() && entries[i].path@ == p
                && entry_selected(#[trigger] entries[i], Some(since)),
        forall|i: int| 0 <= i < entries.len() && entries[i].is_file && is_supported_path(
            entries[i].path@,
        ) ==> #[trigger] selected_paths(entries, None).contains(entries[i].path@),
    decreases entries.len(),
{
    if entries.len() > 0 {
        let init = entries.drop_last();
        lemma_selection_cutoff(init, since);
        let last = entries.last();
        assert forall|p: Seq<char>| #[trigger] selected_paths(entries, Some(since)).contains(p)
            implies exists|i: int| 0 <= i < entries.len() && entries[i].path@ == p
                && entry_selected(#[trigger] entries[i], Some(since)) by {
            let prev = selected_paths(init, Some(since));
            if prev.contains(p) {
                let i = choose|i: int| 0 <= i < init.len() && init[i].path@ == p
                    && entry_selected(#[trigger] init[i], Some(since));
                assert(entries[i] == init[i]);
            } else {
                assert(entry_selected(last, Some(since)));
                let k = choose|k: int| 0 <= k < selected_paths(entries, Some(since)).len()
                    && selected_paths(entries, Some(since))[k] == p;
                assert(selected_paths(entries, Some(since)) == prev.push(last.path@));
                if k < prev.len() {
                    assert(prev[k] == p);
                    assert(prev.contains(p));
                }
                assert(entries[entries.len() - 1] == last);
            }
        }
        assert forall|i: int| 0 <= i < entries.len() && entries[i].is_file && is_supported_path(
            entries[i].path@,
        ) implies #[trigger] selected_paths(entries, None).contains(entries[i].path@) by {
            let prev = selected_paths(init, None);
            assert(entry_selected(entries[i], None));
            if i < entries.len() - 1 {
                assert(init[i] == entries[i]);
                assert(init[i].is_file);
                assert(prev.contains(init[i].path@));
                let k = choose|k: int| 0 <= k < prev.len() && prev[k] == init[i].path@;
                if entry_selected(last, None) {
                    assert(selected_paths(entries, None) == prev.push(last.path@));
                    assert(selected_paths(entries, None)[k] == prev[k]);
                } else {
                    assert(selected_paths(entries, None) == prev);
                }
            } else {
                assert(entries[i] == last);
                assert(selected_paths(entries, None) == prev.push(last.path@));
                assert(selected_paths(entries, None)[prev.len() as int] == last.path@);
            }
        }
    }
}

/// Gathers the `(image, source root)` pairs of a batch: each directory contributes the images
/// found in it, rooted at the directory; each supported file contributes itself, rooted at its
/// own directory; anything else is skipped.
pub fn collect_sources(inputs: &Vec<InputPath>) -> (r: Vec<(String, String)>)
    ensures
        pairs_view(r@) == all_sources(inputs@),
{
    let mut r: Vec<(String, String)> = Vec::new();
    let mut i: usize = 0;
    while i < inputs.len()
        invariant
            i <= inputs@.len(),
            pairs_view(r@) == all_sources(inputs@.take(i as int)),
        decreases inputs@.len() - i,
    {
        let input = &inputs[i];
        assert(inputs@.take(i + 1).drop_last() =~= inputs@.take(i as int));
        let ghost start = pairs_view(r@);
        match &input.kind {
            InputKind::Directory { images } => {
                let mut k: usize = 0;
                while k < images.len()
                    invariant
                        k <= images@.len(),
                        pairs_view(r@) == start + strings_view(images@).take(k as int).map_values(
                            |img: Seq<char>| (img, input.path@),
                        ),
                    decreases images@.len() - k,
                {
                    let ghost before = r@;
                    r.push((images[k].clone(), input.path.clone()));
                    assert(strings_view(images@).take(k + 1) =~= strings_view(images@).take(k as int).push(images@[k as int]@));
                    assert(pairs_view(r@) =~= pairs_view(before).push((images@[k as int]@, input.path@)));
                    assert(pairs_view(r@) =~= start + strings_view(images@).take(k + 1).map_values(
                        |img: Seq<char>| (img, input.path@),
                    ));
                    k = k + 1;
                }
                assert(strings_view(images@).take(images@.len() as int) =~= strings_view(images@));
            },
            InputKind::File => {
                if is_supported_image(input.path.as_str()) {
                    let root = match containing_dir_of(input.path.as_str()) {
                        Some(d) => d,
                        None => String::new(),
                    };
                    let ghost before = r@;
                    r.push((input.path.clone(), root));
                    assert(pairs_view(r@) =~= pairs_view(before).push((input.path@, parent_or_empty(input.path@))));
                } else {
                    assert(pairs_view(r@) =~= start + Seq::<(Seq<char>, Seq<char>)>::empty());
                }
            },
            InputKind::Other => {
                assert(pairs_view(r@) =~= start + Seq::<(Seq<char>, Seq<char>)>::empty());
            },
        }
        assert(pairs_view(r@) =~= all_sources(inputs@.take(i + 1)));
        i = i + 1;
    }
    assert(inputs@.take(inputs@.len() as int) =~= inputs@);
    r
}

/// The number of conversions run at once: the machine's parallelism (4 when unknown), at
/// most 8.
pub open spec fn concurrency(available: Option<usize>) -> usize {
    let n = match available {
        Some(n) => n,
        None => 4,
    };
    if n < 8 {
        n
    } else {
        8
    }
}

/// The bound on simultaneous conversions (see [`concurrency`]).
pub fn concurrency_limit(available: Option<usize>) -> (r: usize)
    ensures
        r == concurrency(available),
        r <= 8,
        available matches Some(n) ==> r <= n,
{
    let n = match available {
        Some(n) => n,
        None => 4,
    };
    if n < 8 {
        n
    } else {
        8
    }
}

/// Whether the pairs are ordered by their first element.
pub open spec fn sorted_by_index<T>(s: Seq<(usize, T)>) -> bool {
    forall|i: int, j: int| 0 <= i < j < s.len() ==> s[i].0 <= s[j].0
}

/// The second elements of a list of pairs.
pub open spec fn seconds<T>(s: Seq<(usize, T)>) -> Seq<T> {
    s.map_values(|p: (usize, T)| p.1)
}

/// Puts results that finished in any order back into input order: the results ordered by
/// the input index each carries.
pub fn order_by_index(indexed: Vec<(usize, ConversionResult)>) -> (r: Vec<ConversionResult>)
    ensures
        exists|s: Seq<(usize, ConversionResult)>|
            #![trigger seconds(s)]
            {
                &&& sorted_by_index(s)
                &&& s.to_multiset() == indexed@.to_multiset()
                &&& r@ == seconds(s)
            },
{
    broadcast use vstd::seq_lib::group_to_multiset_ensures, vstd::multiset::group_multiset_axioms;
    proof {
        vstd::multiset::lemma_multiset_empty_len(Seq::<(usize, ConversionResult)>::empty().to_multiset());
    }
    let ghost original = indexed@;
    let mut rest = indexed;
    let mut sorted: Vec<(usize, ConversionResult)> = Vec::new();
    proof {
        assert(rest@ == original);
        assert(sorted@.to_multiset() =~= Multiset::<(usize, ConversionResult)>::empty());
        assert(rest@.to_multiset().add(sorted@.to_multiset()) =~= original.to_multiset());
    }
    while rest.len() > 0
        invariant
            sorted_by_index(sorted@),
            rest@.to_multiset().add(sorted@.to_multiset()) == original.to_multiset(),
        decreases rest@.len(),
    {
        let ghost before_rest = rest@;
        let ghost before_sorted = sorted@;
        let item = rest.pop().unwrap();
        proof {
            assert(before_rest =~= rest@.push(item));
            to_multiset_build(rest@, item);
        }
        let mut pos: usize = 0;
        while pos < sorted.len() && sorted[pos].0 < item.0
            invariant
                pos <= sorted@.len(),
                sorted@ == before_sorted,
                forall|k: int| 0 <= k < pos ==> sorted@[k].0 < item.0,
            decreases sorted@.len() - pos,
        {
            pos = pos + 1;
        }
        sorted.insert(pos, item);
        proof {
            to_multiset_insert(before_sorted, pos as int, item);
            assert(sorted@ == before_sorted.insert(pos as int, item));
            assert forall|i: int, j: int| 0 <= i < j < sorted@.len() implies sorted@[i].0 <= sorted@[j].0 by {
                if j < pos {
                    assert(sorted@[i] == before_sorted[i]);
                    assert(sorted@[j] == before_sorted[j]);
                } else if j == pos {
                    assert(sorted@[i] == before_sorted[i]);
                } else if i == pos {
                    assert(sorted@[j] == before_sorted[j - 1]);
                    if pos < before_sorted.len() {
                        assert(!(before_sorted[pos as int].0 < item.0));
                        assert(before_sorted[pos as int].0 <= before_sorted[j - 1].0);
                    }
                } else if i < pos {
                    assert(sorted@[i] == before_sorted[i]);
                    assert(sorted@[j] == before_sorted[j - 1]);
                } else {
                    assert(sorted@[i] == before_sorted[i - 1]);
                    assert(sorted@[j] == before_sorted[j - 1]);
                }
            }
            assert(rest@.to_multiset().add(sorted@.to_multiset()) =~= original.to_multiset());
        }
    }
    proof {
        assert(rest@ =~= Seq::<(usize, ConversionResult)>::empty());
        vstd::multiset::lemma_multiset_empty_len(rest@.to_multiset());
        assert(rest@.to_multiset() =~= Multiset::<(usize, ConversionResult)>::empty());
        assert(sorted@.to_multiset() =~= original.to_multiset());
    }
    let ghost final_sorted = sorted@;
    let mut src = sorted;
    let mut r: Vec<ConversionResult> = Vec::new();
    proof {
        assert(seconds(final_sorted) =~= r@ + seconds(src@));
    }
    while src.len() > 0
        invariant
            seconds(final_sorted) == r@ + seconds(src@),
        decreases src@.len(),
    {
        let ghost before = src@;
        let (_, res) = src.remove(0);
        proof {
            assert(before =~= seq![before[0]] + src@);
            assert(seconds(before) =~= seq![before[0].1] + seconds(src@));
        }
        r.push(res);
        proof {
            assert(seconds(final_sorted) =~= r@ + seconds(src@));
        }
    }
    proof {
        assert(seconds(src@) =~= Seq::<ConversionResult>::empty());
        assert(r@ =~= seconds(final_sorted));
    }
    r
}

/// The results of a batch tagged with their input positions.
pub open spec fn tagged<T>(results: Seq<T>) -> Seq<(usize, T)> {
    Seq::new(results.len(), |i: int| (i as usize, results[i]))
}

/// Two sequences ordered by first elements, with the same elements and pairwise different
/// first elements, are equal.
proof fn lemma_sorted_permutation_unique<T>(s: Seq<(usize, T)>, c: Seq<(usize, T)>)
    requires
        sorted_by_index(s),
        sorted_by_index(c),
        s.to_multiset() == c.to_multiset(),
        forall|i: int, j: int| 0 <= i < j < c.len() ==> c[i].0 != c[j].0,
    ensures
        s == c,
    decreases s.len(),
{
    broadcast use vstd::seq_lib::group_to_multiset_ensures, vstd::multiset::group_multiset_axioms;

    vstd::seq_lib::to_multiset_len(s);
    vstd::seq_lib::to_multiset_len(c);
    if s.len() == 0 {
        assert(c.to_multiset().len() == 0);
        assert(s =~= c);
    } else {
        assert(c.len() == s.len());
        let a = s[0];
        let b = c[0];
        assert(s.contains(a));
        assert(s.to_multiset().count(a) > 0);
        assert(c.contains(a));
        let j = choose|j: int| 0 <= j < c.len() && c[j] == a;
        assert(c.contains(b));
        assert(c.to_multiset().count(b) > 0);
        assert(s.contains(b));
        let k = choose|k: int| 0 <= k < s.len() && s[k] == b;
        assert(a.0 <= b.0) by {
            if k > 0 {
                assert(s[0].0 <= s[k].0);
            }
        }
        assert(b.0 <= a.0) by {
            if j > 0 {
                assert(c[0].0 <= c[j].0);
            }
        }
        if j != 0 {
            assert(c[0].0 != c[j].0);
        }
        assert(j == 0);
        assert(a == b);
        let s1 = s.remove(0);
        let c1 = c.remove(0);
        assert(s1.to_multiset() == s.to_multiset().remove(a));
        assert(c1.to_multiset() == c.to_multiset().remove(b));
        assert forall|i: int, jj: int| 0 <= i < jj < s1.len() implies s1[i].0 <= s1[jj].0 by {
            assert(s1[i] == s[i + 1] && s1[jj] == s[jj + 1]);
        }
        assert forall|i: int, jj: int| 0 <= i < jj < c1.len() implies c1[i].0 <= c1[jj].0 by {
            assert(c1[i] == c[i + 1] && c1[jj] == c[jj + 1]);
        }
        assert forall|i: int, jj: int| 0 <= i < jj < c1.len() implies c1[i].0 != c1[jj].0 by {
            assert(c1[i] == c[i + 1] && c1[jj] == c[jj + 1]);
        }
        lemma_sorted_permutation_unique(s1, c1);
        assert(s =~= seq![a] + s1);
        assert(c =~= seq![b] + c1);
    }
}

/// Results that come back tagged with their input positions, each position once, are put
/// back exactly in input order: any ordering that [`order_by_index`] may return for them is
/// the input order.
pub proof fn lemma_results_in_input_order<T>(s: Seq<(usize, T)>, results: Seq<T>)
    requires
        results.len() <= usize::MAX + 1,
        sorted_by_index(s),
        s.to_multiset() == tagged(results).to_multiset(),
    ensures
        seconds(s) == results,
{
    let c = tagged(results);
    assert forall|i: int, j: int| 0 <= i < j < c.len() implies c[i].0 <= c[j].0 && c[i].0 != c[j].0 by {
        assert(c[i].0 == i as usize && c[j].0 == j as usize);
    }
    lemma_sorted_permutation_unique(s, c);
    assert(seconds(s) =~= results);
}


/// Whether a walked entry is a regular file with a supported extension that, when a cutoff is
/// given, has a known modification time strictly after it.
pub open spec fn walk_pick(since: Option<i128>) -> spec_fn(DirEntryInfo) -> bool {
    |e: DirEntryInfo|
        e.is_file && is_supported_path(e.path@) && match since {
            None => true,
            Some(s) => e.modified is Some && e.modified->0 > s,
        }
}

/// The selection is exactly the walked entries that pass the per-entry test, in walk order:
/// whether an entry is picked depends on that entry and the cutoff alone.
pub proof fn lemma_selection_is_a_filter(entries: Seq<DirEntryInfo>, since: Option<i128>)
    ensures
        selected_paths(entries, since) == entries.filter(walk_pick(since)).map_values(
            |e: DirEntryInfo| e.path@,
        ),
    decreases entries.len(),
{
    reveal(Seq::filter);
    if entries.len() > 0 {
        let init = entries.drop_last();
        lemma_selection_is_a_filter(init, since);
        let f = init.filter(walk_pick(since));
        let last = entries.last();
        assert(entry_selected(last, since) == walk_pick(since)(last));
        if walk_pick(since)(last) {
            assert(f.push(last).map_values(|e: DirEntryInfo| e.path@) =~= f.map_values(
                |e: DirEntryInfo| e.path@,
            ).push(last.path@));
        }
    }
}

/// Under a cutoff, every regular file with a supported extension and a known modification
/// time strictly after the cutoff is selected, whatever else the walk holds.
pub proof fn lemma_selection_complete(entries: Seq<DirEntryInfo>, s: i128)
    ensures
        forall|i: int|
            0 <= i < entries.len() && entries[i].is_file && is_supported_path(entries[i].path@)
                && entries[i].modified is Some && entries[i].modified->0 > s
                ==> #[trigger] selected_paths(entries, Some(s)).contains(entries[i].path@),
{
    lemma_selection_is_a_filter(entries, Some(s));
    let f = entries.filter(walk_pick(Some(s)));
    assert forall|i: int|
        0 <= i < entries.len() && entries[i].is_file && is_supported_path(entries[i].path@)
            && entries[i].modified is Some && entries[i].modified->0 > s
            implies #[trigger] selected_paths(entries, Some(s)).contains(entries[i].path@) by {
        assert(walk_pick(Some(s))(entries[i]));
        entries.lemma_filter_contains(walk_pick(Some(s)), i);
        let j = choose|j: int| 0 <= j < f.len() && f[j] == entries[i];
        assert(f.map_values(|e: DirEntryInfo| e.path@)[j] == entries[i].path@);
    }
}

/// Walking two parts of a tree one after the other selects the selections of the two parts,
/// one after the other, with the same cutoff.
pub proof fn lemma_selection_compose(a: Seq<DirEntryInfo>, b: Seq<DirEntryInfo>, since: Option<i128>)
    ensures
        selected_paths(a + b, since) == selected_paths(a, since) + selected_paths(b, since),
{
    lemma_selection_is_a_filter(a + b, since);
    lemma_selection_is_a_filter(a, since);
    lemma_selection_is_a_filter(b, since);
    Seq::filter_distributes_over_add(a, b, walk_pick(since));
    let fa = a.filter(walk_pick(since));
    let fb = b.filter(walk_pick(since));
    assert((fa + fb).map_values(|e: DirEntryInfo| e.path@) =~= fa.map_values(
        |e: DirEntryInfo| e.path@,
    ) + fb.map_values(|e: DirEntryInfo| e.path@));
}

/// The pairs of a batch are the pairs of its inputs, each input taken on its own, in order.
pub proof fn lemma_sources_compose(a: Seq<InputPath>, b: Seq<InputPath>)
    ensures
        all_sources(a + b) == all_sources(a) + all_sources(b),
    decreases b.len(),
{
    if b.len() == 0 {
        assert(a + b =~= a);
        assert(all_sources(a) + all_sources(b) =~= all_sources(a));
    } else {
        lemma_sources_compose(a, b.drop_last());
        assert((a + b).drop_last() =~= a + b.drop_last());
        assert((a + b).last() == b.last());
        assert(all_sources(a) + all_sources(b) =~= (all_sources(a) + all_sources(b.drop_last()))
            + sources_of(b.last()));
    }
}

/// A folder in a batch contributes, at its place in the batch, each of its images paired with
/// that folder's own path as the source root.
pub proof fn lemma_directory_sources(inputs: Seq<InputPath>, i: int)
    requires
        0 <= i < inputs.len(),
        inputs[i].kind is Directory,
    ensures
        ({
            let images = inputs[i].kind->images@;
            let before = all_sources(inputs.take(i)).len();
            &&& all_sources(inputs).len() >= before + images.len()
            &&& forall|k: int|
                0 <= k < images.len() ==> all_sources(inputs)[before + k] == (
                    images[k]@,
                    inputs[i].path@,
                )
        }),
{
    let x = inputs[i];
    let images = x.kind->images@;
    let one = seq![x];
    assert(one.drop_last() =~= Seq::<InputPath>::empty());
    assert(one.last() == x);
    assert(all_sources(Seq::<InputPath>::empty()) == Seq::<(Seq<char>, Seq<char>)>::empty());
    assert(all_sources(one) == all_sources(one.drop_last()) + sources_of(one.last()));
    assert(all_sources(one) =~= sources_of(x));
    lemma_sources_compose(one, inputs.skip(i + 1));
    assert(one + inputs.skip(i + 1) =~= inputs.skip(i));
    lemma_sources_compose(inputs.take(i), inputs.skip(i));
    assert(inputs.take(i) + inputs.skip(i) =~= inputs);
    let before = all_sources(inputs.take(i));
    let mine = sources_of(x);
    assert(mine.len() == images.len());
    assert forall|k: int| 0 <= k < images.len() implies all_sources(inputs)[before.len() + k] == (
        images[k]@,
        x.path@,
    ) by {
        assert(mine[k] == (images[k]@, x.path@));
        assert(all_sources(inputs) == before + (mine + all_sources(inputs.skip(i + 1))));
    }
}

} // verus!
