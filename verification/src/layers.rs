//! Layer directories: parsing a directory name into an ordering index and a
//! display name, listing the files of one layer, and ordering the layer
//! directories by parsed index with ties kept in enumeration order.

use vstd::prelude::*;
use vstd::string::StrSliceExecFns;

verus! {

/// One entry of a directory listing, as handed in by the caller: its name and
/// whether it is itself a directory.
pub struct DirEntry {
    pub name: String,
    pub is_dir: bool,
}

/// One layer directory: the ordering index parsed from the first four
/// characters of the directory name, the display name that follows them, and
/// the full directory name used to reach the layer on disk.
pub struct Layer {
    pub index: u8,
    pub name: String,
    pub dir_name: String,
}

/// The error of the reader: a layer directory name without a well-formed
/// four-character numeric prefix.
#[derive(Clone, Copy, Debug, PartialEq, Eq, Structural)]
pub enum LayersError {
    MalformedLayerName,
}

/// A decimal digit.
pub open spec fn is_digit(c: char) -> bool {
    '0' <= c && c <= '9'
}

/// The numeric value of a decimal digit.
pub open spec fn digit_value(c: char) -> int {
    c as int - '0' as int
}

/// The name has at least four characters and the first four are decimal
/// digits.
pub open spec fn has_index_prefix(s: Seq<char>) -> bool {
    s.len() >= 4 && is_digit(s[0]) && is_digit(s[1]) && is_digit(s[2]) && is_digit(s[3])
}

/// The number written by the first four characters of the name.
pub open spec fn prefix_value(s: Seq<char>) -> int {
    digit_value(s[0]) * 1000 + digit_value(s[1]) * 100 + digit_value(s[2]) * 10 + digit_value(s[3])
}

/// A well-formed layer directory name: a four-digit prefix whose value fits
/// the index type.
pub open spec fn is_layer_dir_name(s: Seq<char>) -> bool {
    has_index_prefix(s) && prefix_value(s) <= u8::MAX
}

/// The parsed layer faithfully splits its directory name.
pub open spec fn layer_wf(l: Layer) -> bool {
    &&& is_layer_dir_name(l.dir_name@)
    &&& l.index == prefix_value(l.dir_name@)
    &&& l.name@ == l.dir_name@.skip(4)
}

/// The names of the subdirectories among `entries`, in enumeration order.
pub open spec fn subdir_names(entries: Seq<DirEntry>) -> Seq<Seq<char>>
    decreases entries.len(),
{
    if entries.len() == 0 {
        Seq::empty()
    } else if entries.last().is_dir {
        subdir_names(entries.drop_last()).push(entries.last().name@)
    } else {
        subdir_names(entries.drop_last())
    }
}

/// The names of the non-directory entries among `entries`, in enumeration
/// order.
pub open spec fn file_names(entries: Seq<DirEntry>) -> Seq<Seq<char>>
    decreases entries.len(),
{
    if entries.len() == 0 {
        Seq::empty()
    } else if !entries.last().is_dir {
        file_names(entries.drop_last()).push(entries.last().name@)
    } else {
        file_names(entries.drop_last())
    }
}

/// Every name of the sequence is a well-formed layer directory name.
pub open spec fn all_layer_dir_names(names: Seq<Seq<char>>) -> bool {
    forall|i: int| 0 <= i < names.len() ==> is_layer_dir_name(#[trigger] names[i])
}

/// The names are ordered by their numeric prefixes, ascending.
pub open spec fn sorted_by_prefix(names: Seq<Seq<char>>) -> bool {
    forall|i: int, j: int|
        0 <= i < j < names.len() ==> prefix_value(#[trigger] names[i]) <= prefix_value(
            #[trigger] names[j],
        )
}

/// Inserts `x` into `names` after every name whose prefix is not larger, so
/// that names with equal prefixes keep their relative order.
pub open spec fn insert_by_prefix(x: Seq<char>, names: Seq<Seq<char>>) -> Seq<Seq<char>>
    decreases names.len(),
{
    if names.len() == 0 {
        seq![x]
    } else if prefix_value(x) < prefix_value(names.last()) {
        insert_by_prefix(x, names.drop_last()).push(names.last())
    } else {
        names.push(x)
    }
}

/// The stable sort of `names` by numeric prefix: each name in turn is placed
/// after the already placed names whose prefix is not larger.
pub open spec fn sort_by_prefix(names: Seq<Seq<char>>) -> Seq<Seq<char>>
    decreases names.len(),
{
    if names.len() == 0 {
        Seq::empty()
    } else {
        insert_by_prefix(names.last(), sort_by_prefix(names.drop_last()))
    }
}

/// The directory names of a sequence of parsed layers, in order.
pub open spec fn layer_dir_names(ls: Seq<Layer>) -> Seq<Seq<char>> {
    ls.map_values(|l: Layer| l.dir_name@)
}

/// Every subdirectory's name occurs in the listed subdirectory names.
proof fn lemma_subdir_names_contains(entries: Seq<DirEntry>, i: int)
    requires
        0 <= i < entries.len(),
        entries[i].is_dir,
    ensures
        exists|j: int|
            0 <= j < subdir_names(entries).len() && subdir_names(entries)[j] == entries[i].name@,
    decreases entries.len(),
{
    if i == entries.len() - 1 {
        assert(subdir_names(entries).last() == entries[i].name@);
    } else {
        lemma_subdir_names_contains(entries.drop_last(), i);
        let j = choose|j: int|
            0 <= j < subdir_names(entries.drop_last()).len() && subdir_names(entries.drop_last())[j]
                == entries.drop_last()[i].name@;
        assert(subdir_names(entries)[j] == entries[i].name@);
    }
}

/// Inserting keeps any common upper bound on the prefixes.
proof fn lemma_insert_by_prefix_bound(x: Seq<char>, names: Seq<Seq<char>>, b: int)
    requires
        prefix_value(x) <= b,
        forall|j: int| 0 <= j < names.len() ==> prefix_value(#[trigger] names[j]) <= b,
    ensures
        forall|i: int|
            0 <= i < insert_by_prefix(x, names).len() ==> prefix_value(
                #[trigger] insert_by_prefix(x, names)[i],
            ) <= b,
    decreases names.len(),
{
    if names.len() == 0 {
    } else if prefix_value(x) < prefix_value(names.last()) {
        lemma_insert_by_prefix_bound(x, names.drop_last(), b);
        let r = insert_by_prefix(x, names.drop_last()).push(names.last());
        assert forall|i: int| 0 <= i < r.len() implies prefix_value(#[trigger] r[i]) <= b by {
            if i < r.len() - 1 {
                assert(r[i] == insert_by_prefix(x, names.drop_last())[i]);
            } else {
                assert(r[i] == names.last());
            }
        }
    } else {
        let r = names.push(x);
        assert forall|i: int| 0 <= i < r.len() implies prefix_value(#[trigger] r[i]) <= b by {
            if i < r.len() - 1 {
                assert(r[i] == names[i]);
            } else {
                assert(r[i] == x);
            }
        }
    }
}

/// Inserting one name keeps the sequence ordered and grows it by one.
proof fn lemma_insert_by_prefix_sorted(x: Seq<char>, names: Seq<Seq<char>>)
    requires
        sorted_by_prefix(names),
    ensures
        insert_by_prefix(x, names).len() == names.len() + 1,
        sorted_by_prefix(insert_by_prefix(x, names)),
    decreases names.len(),
{
    if names.len() == 0 {
    } else if prefix_value(x) < prefix_value(names.last()) {
        lemma_insert_by_prefix_sorted(x, names.drop_last());
        lemma_insert_by_prefix_bound(x, names.drop_last(), prefix_value(names.last()));
    } else {
    }
}

/// Inserting one name adds exactly that name to the contents.
proof fn lemma_insert_by_prefix_multiset(x: Seq<char>, names: Seq<Seq<char>>)
    ensures
        insert_by_prefix(x, names).to_multiset() == names.to_multiset().insert(x),
    decreases names.len(),
{
    broadcast use vstd::seq_lib::to_multiset_build;

    if names.len() == 0 {
        assert(insert_by_prefix(x, names) =~= names.push(x));
        assert(names.push(x).to_multiset() =~= names.to_multiset().insert(x));
    } else if prefix_value(x) < prefix_value(names.last()) {
        lemma_insert_by_prefix_multiset(x, names.drop_last());
        assert(names.drop_last().push(names.last()) =~= names);
        assert(insert_by_prefix(x, names).to_multiset() =~= names.to_multiset().insert(x));
    } else {
        assert(names.push(x).to_multiset() =~= names.to_multiset().insert(x));
    }
}

/// Law: the reader's output keeps one entry per subdirectory of the input
/// root — the same names, the same count — and orders them ascending by the
/// parsed numeric prefix.
pub proof fn lemma_sort_by_prefix_shape(names: Seq<Seq<char>>)
    ensures
        sort_by_prefix(names).len() == names.len(),
        sorted_by_prefix(sort_by_prefix(names)),
        sort_by_prefix(names).to_multiset() == names.to_multiset(),
    decreases names.len(),
{
    broadcast use vstd::seq_lib::to_multiset_build;

    if names.len() == 0 {
        assert(names =~= Seq::<Seq<char>>::empty());
    } else {
        lemma_sort_by_prefix_shape(names.drop_last());
        lemma_insert_by_prefix_sorted(names.last(), sort_by_prefix(names.drop_last()));
        lemma_insert_by_prefix_multiset(names.last(), sort_by_prefix(names.drop_last()));
        assert(names.drop_last().push(names.last()) =~= names);
        assert(names.drop_last().push(names.last()).to_multiset() == names.drop_last().to_multiset().insert(names.last()));
        assert(sort_by_prefix(names).to_multiset() =~= names.to_multiset());
    }
}

/// The names whose prefix writes the value `k`.
pub open spec fn has_prefix_value(k: int) -> spec_fn(Seq<char>) -> bool {
    |n: Seq<char>| prefix_value(n) == k
}

/// One more name at the end either passes the filter and is appended to its
/// output, or leaves it unchanged.
proof fn lemma_filter_push(s: Seq<Seq<char>>, e: Seq<char>, pred: spec_fn(Seq<char>) -> bool)
    ensures
        s.push(e).filter(pred) == if pred(e) {
            s.filter(pred).push(e)
        } else {
            s.filter(pred)
        },
{
    reveal(Seq::filter);
    assert(s.push(e).drop_last() =~= s);
    assert(s.push(e).last() == e);
}

/// Inserting a name adds it at the end of the names that share its prefix
/// value and leaves every other prefix value's names unchanged.
proof fn lemma_insert_by_prefix_filter(x: Seq<char>, names: Seq<Seq<char>>, k: int)
    ensures
        insert_by_prefix(x, names).filter(has_prefix_value(k)) == if prefix_value(x) == k {
            names.filter(has_prefix_value(k)).push(x)
        } else {
            names.filter(has_prefix_value(k))
        },
    decreases names.len(),
{
    if names.len() == 0 {
        assert(insert_by_prefix(x, names) =~= names.push(x));
        lemma_filter_push(names, x, has_prefix_value(k));
    } else if prefix_value(x) < prefix_value(names.last()) {
        lemma_insert_by_prefix_filter(x, names.drop_last(), k);
        lemma_filter_push(insert_by_prefix(x, names.drop_last()), names.last(), has_prefix_value(k));
        lemma_filter_push(names.drop_last(), names.last(), has_prefix_value(k));
        assert(names.drop_last().push(names.last()) =~= names);
    } else {
        lemma_filter_push(names, x, has_prefix_value(k));
    }
}

/// Law: the sort is stable — for every prefix value, the names that share it
/// come out in exactly the order they were enumerated in.
pub proof fn lemma_sort_by_prefix_stable(names: Seq<Seq<char>>, k: int)
    ensures
        sort_by_prefix(names).filter(has_prefix_value(k)) == names.filter(has_prefix_value(k)),
    decreases names.len(),
{
    if names.len() == 0 {
        assert(names =~= Seq::<Seq<char>>::empty());
    } else {
        lemma_sort_by_prefix_stable(names.drop_last(), k);
        lemma_insert_by_prefix_filter(names.last(), sort_by_prefix(names.drop_last()), k);
        lemma_filter_push(names.drop_last(), names.last(), has_prefix_value(k));
        assert(names.drop_last().push(names.last()) =~= names);
    }
}

/// The recursive insertion equals one splice at the position found by
/// scanning from the right: everything at or after `p` has a strictly larger
/// prefix, and the name just before `p`, if any, has one not larger.
proof fn lemma_insert_by_prefix_at(x: Seq<char>, names: Seq<Seq<char>>, p: int)
    requires
        0 <= p <= names.len(),
        forall|j: int| p <= j < names.len() ==> prefix_value(x) < prefix_value(#[trigger] names[j]),
        p > 0 ==> prefix_value(names[p - 1]) <= prefix_value(x),
    ensures
        insert_by_prefix(x, names) == names.insert(p, x),
    decreases names.len(),
{
    if names.len() == 0 {
        assert(insert_by_prefix(x, names) =~= names.insert(0, x));
    } else if prefix_value(x) < prefix_value(names.last()) {
        assert(p < names.len());
        lemma_insert_by_prefix_at(x, names.drop_last(), p);
        assert(names.drop_last().insert(p, x).push(names.last()) =~= names.insert(p, x));
    } else {
        assert(p == names.len());
        assert(names.push(x) =~= names.insert(p, x));
    }
}

/// Parses one layer directory name: the first four characters must be decimal
/// digits whose value fits the index type; the remaining characters are the
/// layer's display name.
pub fn parse_layer(dir_name: &String) -> (r: Result<Layer, LayersError>)
    ensures
        match r {
            Ok(l) => is_layer_dir_name(dir_name@) && layer_wf(l) && l.dir_name@ == dir_name@,
            Err(e) => !is_layer_dir_name(dir_name@) && e == LayersError::MalformedLayerName,
        },
{
    let len = dir_name.as_str().unicode_len();
    if len < 4 {
        return Err(LayersError::MalformedLayerName);
    }
    let c0 = dir_name.as_str().get_char(0);
    let c1 = dir_name.as_str().get_char(1);
    let c2 = dir_name.as_str().get_char(2);
    let c3 = dir_name.as_str().get_char(3);
    if c0 < '0' || c0 > '9' || c1 < '0' || c1 > '9' || c2 < '0' || c2 > '9' || c3 < '0' || c3 > '9'
    {
        return Err(LayersError::MalformedLayerName);
    }
    let zero = '0' as u32;
    let value: u32 = (c0 as u32 - zero) * 1000 + (c1 as u32 - zero) * 100 + (c2 as u32 - zero) * 10
        + (c3 as u32 - zero);
    if value > 255 {
        return Err(LayersError::MalformedLayerName);
    }
    let name = dir_name.as_str().substring_char(4, len).to_owned();
    Ok(Layer { index: value as u8, name, dir_name: dir_name.clone() })
}

/// Lists the names of the non-directory entries of one layer directory, in
/// enumeration order: each is one selectable option of that layer.
pub fn get_dir_contents(entries: &Vec<DirEntry>) -> (r: Vec<String>)
    ensures
        r.deep_view() == file_names(entries@),
{
    let mut r: Vec<String> = Vec::new();
    let mut i: usize = 0;
    while i < entries.len()
        invariant
            i <= entries.len(),
            r.deep_view() == file_names(entries@.take(i as int)),
        decreases entries.len() - i,
    {
        let ghost prev = r.deep_view();
        if !entries[i].is_dir {
            r.push(entries[i].name.clone());
            assert(r.deep_view() =~= prev.push(entries@[i as int].name@));
        }
        assert(entries@.take(i + 1).drop_last() =~= entries@.take(i as int));
        assert(r.deep_view() == file_names(entries@.take(i + 1)));
        i = i + 1;
    }
    proof {
        assert(entries@.take(entries@.len() as int) =~= entries@);
    }
    r
}

/// Clones one parsed layer, keeping its three fields.
fn clone_layer(l: &Layer) -> (r: Layer)
    ensures
        r.index == l.index,
        r.name@ == l.name@,
        r.dir_name@ == l.dir_name@,
{
    Layer { index: l.index, name: l.name.clone(), dir_name: l.dir_name.clone() }
}

/// Reads the layer directories out of the listing of the input root: every
/// subdirectory name is parsed into its numeric prefix and display name, and
/// the full directory names are returned ordered ascending by parsed index,
/// names with equal indexes keeping their enumeration order. Fails if any
/// subdirectory name lacks a well-formed four-digit prefix.
pub fn get_layers(entries: &Vec<DirEntry>) -> (r: Result<Vec<String>, LayersError>)
    ensures
        match r {
            Ok(v) => all_layer_dir_names(subdir_names(entries@)) && v.deep_view() == sort_by_prefix(
                subdir_names(entries@),
            ),
            Err(e) => !all_layer_dir_names(subdir_names(entries@)) && e
                == LayersError::MalformedLayerName,
        },
{
    let mut layers: Vec<Layer> = Vec::new();
    let mut i: usize = 0;
    while i < entries.len()
        invariant
            i <= entries.len(),
            layer_dir_names(layers@) == subdir_names(entries@.take(i as int)),
            forall|j: int| 0 <= j < layers@.len() ==> layer_wf(#[trigger] layers@[j]),
        decreases entries.len() - i,
    {
        let ghost prev = layers@;
        if entries[i].is_dir {
            match parse_layer(&entries[i].name) {
                Ok(l) => {
                    layers.push(l);
                    assert(layer_dir_names(layers@) =~= layer_dir_names(prev).push(
                        entries@[i as int].name@,
                    ));
                },
                Err(_) => {
                    proof {
                        lemma_subdir_names_contains(entries@, i as int);
                    }
                    return Err(LayersError::MalformedLayerName);
                },
            }
        }
        assert(entries@.take(i + 1).drop_last() =~= entries@.take(i as int));
        assert(layer_dir_names(layers@) == subdir_names(entries@.take(i + 1)));
        i = i + 1;
    }
    proof {
        assert(entries@.take(entries@.len() as int) =~= entries@);
    }
    let ghost parsed = layers@;
    let ghost names = layer_dir_names(parsed);
    assert(all_layer_dir_names(names));
    let mut sorted_layers: Vec<Layer> = Vec::new();
    let mut k: usize = 0;
    while k < layers.len()
        invariant
            k <= layers@.len(),
            layers@ == parsed,
            names == layer_dir_names(parsed),
            forall|j: int| 0 <= j < parsed.len() ==> layer_wf(#[trigger] parsed[j]),
            forall|j: int| 0 <= j < sorted_layers@.len() ==> layer_wf(#[trigger] sorted_layers@[j]),
            layer_dir_names(sorted_layers@) == sort_by_prefix(names.take(k as int)),
            sorted_layers@.len() == k,
        decreases layers@.len() - k,
    {
        let l = clone_layer(&layers[k]);
        assert(layer_wf(l));
        let ghost snames = layer_dir_names(sorted_layers@);
        let mut p: usize = sorted_layers.len();
        while p > 0 && l.index < sorted_layers[p - 1].index
            invariant
                p <= sorted_layers@.len(),
                forall|j: int|
                    0 <= j < sorted_layers@.len() ==> layer_wf(#[trigger] sorted_layers@[j]),
                forall|j: int|
                    p <= j < sorted_layers@.len() ==> l.index < #[trigger] sorted_layers@[j].index,
                layer_wf(l),
            decreases p,
        {
            p = p - 1;
        }
        proof {
            assert forall|j: int| p <= j < snames.len() implies prefix_value(l.dir_name@)
                < prefix_value(#[trigger] snames[j]) by {
                assert(snames[j] == sorted_layers@[j].dir_name@);
                assert(layer_wf(sorted_layers@[j]));
            }
            assert(p > 0 ==> prefix_value(snames[p - 1]) <= prefix_value(l.dir_name@));
            lemma_insert_by_prefix_at(l.dir_name@, snames, p as int);
        }
        sorted_layers.insert(p, l);
        proof {
            assert(layer_dir_names(sorted_layers@) =~= snames.insert(p as int, l.dir_name@));
            assert(names.take(k + 1).drop_last() =~= names.take(k as int));
            assert(names.take(k + 1).last() == names[k as int]);
            assert(l.dir_name@ == names[k as int]);
            assert(layer_dir_names(sorted_layers@) == sort_by_prefix(names.take(k + 1)));
        }
        k = k + 1;
    }
    proof {
        assert(names.take(names.len() as int) =~= names);
    }
    let mut out: Vec<String> = Vec::new();
    let mut m: usize = 0;
    while m < sorted_layers.len()
        invariant
            m <= sorted_layers@.len(),
            layer_dir_names(sorted_layers@) == sort_by_prefix(names),
            names == subdir_names(entries@),
            all_layer_dir_names(names),
            out.deep_view() == layer_dir_names(sorted_layers@.take(m as int)),
        decreases sorted_layers@.len() - m,
    {
        let ghost prev = out.deep_view();
        out.push(sorted_layers[m].dir_name.clone());
        proof {
            assert(out.deep_view() =~= prev.push(sorted_layers@[m as int].dir_name@));
            assert(layer_dir_names(sorted_layers@.take(m + 1)) =~= layer_dir_names(
                sorted_layers@.take(m as int),
            ).push(sorted_layers@[m as int].dir_name@));
        }
        m = m + 1;
    }
    proof {
        assert(sorted_layers@.take(sorted_layers@.len() as int) =~= sorted_layers@);
    }
    Ok(out)
}

} // verus!
