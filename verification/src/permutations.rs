//! Cartesian-product enumeration: every complete choice of one option per
//! layer, in layer order, with the first layer's options varying slowest.

use vstd::prelude::*;

verus! {

/// All complete selections that start with the accumulated choices `cur` and
/// continue with one element out of each list of `lists`, in order: the
/// selections are grouped by the choice out of `lists[0]`, each group listing
/// the choices out of the later lists in the same recursive order.
pub open spec fn product_from<A>(cur: Seq<A>, lists: Seq<Seq<A>>) -> Seq<Seq<A>>
    decreases lists.len(), 0nat,
{
    if lists.len() == 0 {
        seq![cur]
    } else {
        product_options(cur, lists[0], lists.drop_first())
    }
}

/// The selections that extend `cur` with one element of `opts` and then one
/// element out of each list of `rest`, grouped by the chosen element of
/// `opts`, in the order of `opts`.
pub open spec fn product_options<A>(cur: Seq<A>, opts: Seq<A>, rest: Seq<Seq<A>>) -> Seq<Seq<A>>
    decreases rest.len(), opts.len(),
{
    if opts.len() == 0 {
        Seq::empty()
    } else {
        product_from(cur.push(opts[0]), rest) + product_options(cur, opts.drop_first(), rest)
    }
}

/// The number of complete selections out of `lists`: the product of the list
/// lengths, `1` for no lists at all.
pub open spec fn product_count<A>(lists: Seq<Seq<A>>) -> nat
    decreases lists.len(),
{
    if lists.len() == 0 {
        1
    } else {
        lists[0].len() * product_count(lists.drop_first())
    }
}

/// Law: starting from `cur`, the product over `lists` has exactly
/// `product_count(lists)` entries, and every entry extends `cur` by one
/// choice per list.
pub proof fn lemma_product_from_shape<A>(cur: Seq<A>, lists: Seq<Seq<A>>)
    ensures
        product_from(cur, lists).len() == product_count(lists),
        forall|i: int|
            0 <= i < product_from(cur, lists).len() ==> (#[trigger] product_from(cur, lists)[i]).len()
                == cur.len() + lists.len(),
    decreases lists.len(), 0nat,
{
    if lists.len() == 0 {
    } else {
        lemma_product_options_shape(cur, lists[0], lists.drop_first());
    }
}

/// Law: the grouped product over the options `opts` has exactly
/// `opts.len() * product_count(rest)` entries, each extending `cur` by one
/// choice for the current list and one per list of `rest`.
pub proof fn lemma_product_options_shape<A>(cur: Seq<A>, opts: Seq<A>, rest: Seq<Seq<A>>)
    ensures
        product_options(cur, opts, rest).len() == opts.len() * product_count(rest),
        forall|i: int|
            0 <= i < product_options(cur, opts, rest).len() ==> (#[trigger] product_options(
                cur,
                opts,
                rest,
            )[i]).len() == cur.len() + 1 + rest.len(),
    decreases rest.len(), opts.len(),
{
    if opts.len() == 0 {
    } else {
        lemma_product_from_shape(cur.push(opts[0]), rest);
        lemma_product_options_shape(cur, opts.drop_first(), rest);
        assert(product_count(rest) + (opts.len() - 1) * product_count(rest) == opts.len()
            * product_count(rest)) by (nonlinear_arith);
    }
}

/// Law: the generated permutation list has one entry per element of the
/// Cartesian product of the option lists (`n1 * n2 * ... * nk` entries), and
/// every permutation picks exactly one option per layer.
pub proof fn lemma_permutation_count<A>(lists: Seq<Seq<A>>)
    ensures
        product_from(Seq::<A>::empty(), lists).len() == product_count(lists),
        forall|i: int|
            0 <= i < product_from(Seq::<A>::empty(), lists).len() ==> (#[trigger] product_from(
                Seq::<A>::empty(),
                lists,
            )[i]).len() == lists.len(),
{
    lemma_product_from_shape(Seq::<A>::empty(), lists);
}

/// Law: if any layer offers no option at all, the whole product is empty.
pub proof fn lemma_empty_layer_collapses<A>(lists: Seq<Seq<A>>, k: int)
    requires
        0 <= k < lists.len(),
        lists[k].len() == 0,
    ensures
        product_count(lists) == 0,
    decreases lists.len(),
{
    if k == 0 {
        assert(lists[0].len() * product_count(lists.drop_first()) == 0) by (nonlinear_arith)
            requires
                lists[0].len() == 0,
        ;
    } else {
        lemma_empty_layer_collapses(lists.drop_first(), k - 1);
        assert(lists[0].len() * product_count(lists.drop_first()) == 0) by (nonlinear_arith)
            requires
                product_count(lists.drop_first()) == 0,
        ;
    }
}

/// Law: with no layers left there is exactly one selection, the accumulated
/// one; in particular a zero-layer input yields only the empty selection.
pub proof fn lemma_no_layers_single_selection<A>(cur: Seq<A>)
    ensures
        product_from(cur, Seq::<Seq<A>>::empty()) == seq![cur],
{
}

/// Appending one more option at the end of the processed options appends that
/// option's group of selections at the end of the product.
proof fn lemma_product_options_snoc<A>(cur: Seq<A>, opts: Seq<A>, o: A, rest: Seq<Seq<A>>)
    ensures
        product_options(cur, opts.push(o), rest) == product_options(cur, opts, rest)
            + product_from(cur.push(o), rest),
    decreases opts.len(),
{
    if opts.len() == 0 {
        let tail = opts.push(o).drop_first();
        assert(tail =~= Seq::<A>::empty());
        assert(product_options(cur, tail, rest) == Seq::<Seq<A>>::empty());
        assert(opts.push(o)[0] == o);
        assert(product_options(cur, opts.push(o), rest) == product_from(cur.push(o), rest)
            + Seq::<Seq<A>>::empty());
        assert(product_options(cur, opts.push(o), rest) =~= product_options(cur, opts, rest)
            + product_from(cur.push(o), rest));
    } else {
        lemma_product_options_snoc(cur, opts.drop_first(), o, rest);
        assert(opts.push(o).drop_first() =~= opts.drop_first().push(o));
        assert(opts.push(o)[0] == opts[0]);
        assert(product_options(cur, opts.push(o), rest) == product_from(cur.push(opts[0]), rest) + (
        product_options(cur, opts.drop_first(), rest) + product_from(cur.push(o), rest)));
        assert(product_options(cur, opts.push(o), rest) =~= product_options(cur, opts, rest)
            + product_from(cur.push(o), rest));
    }
}

/// Clones a list of strings, keeping its contents.
fn clone_strings(v: &Vec<String>) -> (r: Vec<String>)
    ensures
        r.deep_view() == v.deep_view(),
{
    let r = v.clone();
    proof {
        assert forall|i: int| 0 <= i < v@.len() implies r.deep_view()[i] == v.deep_view()[i] by {
            assert(cloned::<String>(v@[i], r@[i]));
        }
        assert(r.deep_view() =~= v.deep_view());
    }
    r
}

/// Clones every option list but the first, keeping the contents.
fn tail_lists(v: &Vec<Vec<String>>) -> (r: Vec<Vec<String>>)
    requires
        v@.len() > 0,
    ensures
        r.deep_view() == v.deep_view().drop_first(),
{
    let mut r: Vec<Vec<String>> = Vec::new();
    let mut i: usize = 1;
    while i < v.len()
        invariant
            1 <= i <= v.len(),
            v@.len() > 0,
            r.deep_view() =~= v.deep_view().subrange(1, i as int),
        decreases v.len() - i,
    {
        let inner = clone_strings(&v[i]);
        assert(inner.deep_view() == v.deep_view()[i as int]);
        let ghost prev = r.deep_view();
        r.push(inner);
        proof {
            assert(r@.len() == prev.len() + 1);
            assert forall|j: int| 0 <= j < r@.len() implies r.deep_view()[j] == v.deep_view()[j
                + 1] by {
                if j < prev.len() {
                    assert(r.deep_view()[j] == prev[j]);
                } else {
                    assert(r.deep_view()[j] == inner.deep_view());
                }
            }
            assert(r.deep_view() =~= v.deep_view().subrange(1, i + 1));
        }
        i = i + 1;
    }
    assert(r.deep_view() =~= v.deep_view().drop_first());
    r
}

/// Builds every permutation that extends the already accumulated selections
/// `current_selections` by one option out of each list of
/// `remaining_options`, in layer order: the first remaining layer's options
/// vary slowest, the last layer's options fastest.
pub fn get_permutations(current_selections: &Vec<String>, remaining_options: &Vec<Vec<String>>) -> (
    permutations: Vec<Vec<String>>)
    ensures
        permutations.deep_view() == product_from(
            current_selections.deep_view(),
            remaining_options.deep_view(),
        ),
    decreases remaining_options@.len(),
{
    let mut permutations: Vec<Vec<String>> = Vec::new();
    if remaining_options.len() == 0 {
        permutations.push(clone_strings(current_selections));
        assert(permutations.deep_view() =~= seq![current_selections.deep_view()]);
        return permutations;
    }
    let rest = tail_lists(remaining_options);
    let ghost cur_v = current_selections.deep_view();
    let ghost opts_v = remaining_options.deep_view()[0];
    let ghost rest_v = remaining_options.deep_view().drop_first();
    let options = &remaining_options[0];
    assert(options.deep_view() == opts_v);
    let mut k: usize = 0;
    while k < options.len()
        invariant
            k <= options.len(),
            options.deep_view() == opts_v,
            rest.deep_view() == rest_v,
            current_selections.deep_view() == cur_v,
            rest_v.len() < remaining_options.deep_view().len(),
            permutations.deep_view() == product_options(cur_v, opts_v.take(k as int), rest_v),
        decreases options.len() - k,
    {
        let mut extended = clone_strings(current_selections);
        extended.push(options[k].clone());
        assert(extended.deep_view() =~= cur_v.push(opts_v[k as int]));
        let mut more = get_permutations(&extended, &rest);
        proof {
            lemma_product_options_snoc(cur_v, opts_v.take(k as int), opts_v[k as int], rest_v);
            assert(opts_v.take(k + 1) =~= opts_v.take(k as int).push(opts_v[k as int]));
        }
        permutations.append(&mut more);
        k = k + 1;
    }
    proof {
        assert(opts_v.take(options.len() as int) =~= opts_v);
    }
    permutations
}

} // verus!
