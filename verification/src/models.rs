//! The list of Live2D models offered to the user: which of the model files
//! found on disk are shown, once each, in order.
use vstd::prelude::*;
use crate::text::{
    chars_of, contains_chars, contains_seq, lowercase, starts_with, str_equal,
    string_from_range, string_of, to_lowercase,
};

verus! {

/// The model shown when none is found.
pub open spec fn fallback_model() -> Seq<char> {
    "haru/haru.model3.json"@
}

/// Whether a model path is offered: models whose lower-cased path names
/// `epsilon`, begins with `ren_`, holds `/ren.` or names `miku_pro` are not.
pub open spec fn offered(p: Seq<char>) -> bool {
    let l = lowercase(p);
    &&& !contains_seq(l, "epsilon"@)
    &&& !("ren_"@.is_prefix_of(l) || contains_seq(l, "/ren."@))
    &&& !contains_seq(l, "miku_pro"@)
}

/// The offered paths, in order.
pub open spec fn offered_models(ps: Seq<Seq<char>>) -> Seq<Seq<char>>
    decreases ps.len(),
{
    if ps.len() == 0 {
        ps
    } else if offered(ps.last()) {
        offered_models(ps.drop_last()).push(ps.last())
    } else {
        offered_models(ps.drop_last())
    }
}

/// `ps` without repeats of the element just before (`Vec::dedup`).
pub open spec fn dedup_adjacent(ps: Seq<Seq<char>>) -> Seq<Seq<char>>
    decreases ps.len(),
{
    if ps.len() <= 1 {
        ps
    } else if ps.last() == ps[ps.len() - 2] {
        dedup_adjacent(ps.drop_last())
    } else {
        dedup_adjacent(ps.drop_last()).push(ps.last())
    }
}

/// The file name of a path: what follows its last `/`.
pub open spec fn base_name(p: Seq<char>) -> Seq<char>
    decreases p.len(),
{
    if p.len() == 0 {
        p
    } else if p.last() == '/' {
        Seq::empty()
    } else {
        base_name(p.drop_last()).push(p.last())
    }
}

/// Whether an earlier path of `ps` has the same file name as `ps[i]`.
pub open spec fn name_seen_before(ps: Seq<Seq<char>>, i: int) -> bool {
    exists|j: int| 0 <= j < i && base_name(ps[j]) == base_name(ps[i])
}

/// The first path of each file name, in order.
pub open spec fn first_per_name(ps: Seq<Seq<char>>) -> Seq<Seq<char>>
    decreases ps.len(),
{
    if ps.len() == 0 {
        ps
    } else if name_seen_before(ps, ps.len() - 1) {
        first_per_name(ps.drop_last())
    } else {
        first_per_name(ps.drop_last()).push(ps.last())
    }
}

/// The models offered for the paths found (before ordering).
pub open spec fn model_selection(found: Seq<Seq<char>>) -> Seq<Seq<char>> {
    let all = if found.len() == 0 {
        seq![fallback_model()]
    } else {
        found
    };
    first_per_name(dedup_adjacent(offered_models(all)))
}

/// Lexicographic order of code points, the order of `str`.
pub open spec fn lex_le(a: Seq<char>, b: Seq<char>) -> bool
    decreases a.len(),
{
    if a.len() == 0 {
        true
    } else if b.len() == 0 {
        false
    } else if a[0] != b[0] {
        a[0] < b[0]
    } else {
        lex_le(a.drop_first(), b.drop_first())
    }
}

/// Whether `s` is in ascending order.
pub open spec fn ascending(s: Seq<Seq<char>>) -> bool {
    forall|i: int, j: int| 0 <= i < j < s.len() ==> lex_le(#[trigger] s[i], #[trigger] s[j])
}

/// The characters of each string.
pub open spec fn paths_view(v: Seq<String>) -> Seq<Seq<char>> {
    v.map_values(|s: String| s@)
}

/// Sorts strings with `slice::sort` (`Ord` for `String`): the result is the
/// same strings, ordered lexicographically by code point, which is how the
/// documentation of `str`'s `Ord` describes the order.
#[verifier::external_body]
fn sort_strings(v: &mut Vec<String>)
    ensures
        paths_view(final(v)@).to_multiset() == paths_view(old(v)@).to_multiset(),
        ascending(paths_view(final(v)@)),
{
    v.sort();
}

/// Whether a model path is offered.
pub fn is_offered(p: &str) -> (r: bool)
    ensures
        r == offered(p@),
{
    let l = to_lowercase(p);
    let v = chars_of(l.as_str());
    !contains_chars(&v, "epsilon") && !(starts_with(&v, "ren_") || contains_chars(&v, "/ren."))
        && !contains_chars(&v, "miku_pro")
}

/// The file name of a path.
pub fn file_name(p: &str) -> (r: String)
    ensures
        r@ == base_name(p@),
{
    let v = chars_of(p);
    let mut k = v.len();
    while k > 0 && v[k - 1] != '/'
        invariant
            k <= v.len(),
            forall|i: int| k <= i < v.len() ==> v@[i] != '/',
        decreases k,
    {
        k = k - 1;
    }
    proof {
        lemma_base_name_after(v@, k as int);
    }
    string_from_range(&v, k, v.len())
}

/// The file name is what follows the last `/`.
proof fn lemma_base_name_after(p: Seq<char>, k: int)
    requires
        0 <= k <= p.len(),
        forall|i: int| k <= i < p.len() ==> p[i] != '/',
        k > 0 ==> p[k - 1] == '/',
    ensures
        base_name(p) == p.subrange(k, p.len() as int),
    decreases p.len(),
{
    if p.len() == 0 {
        assert(p.subrange(k, p.len() as int) =~= p);
    } else if k == p.len() {
        assert(p.subrange(k, p.len() as int) =~= Seq::<char>::empty());
    } else {
        lemma_base_name_after(p.drop_last(), k);
        assert(p.subrange(k, p.len() as int) =~= p.drop_last().subrange(k, p.len() - 1).push(
            p.last(),
        ));
    }
}

/// Chooses the models to offer from the model files found, and orders
/// them: when none was found, the fallback model; then only the offered
/// paths, without adjacent repeats, keeping the first path of each file
/// name, in ascending order.
pub fn select_models(found: &Vec<String>) -> (r: Vec<String>)
    ensures
        paths_view(r@).to_multiset() == model_selection(paths_view(found@)).to_multiset(),
        ascending(paths_view(r@)),
{
    let ghost all = if found@.len() == 0 {
        seq![fallback_model()]
    } else {
        paths_view(found@)
    };
    let mut candidates: Vec<String> = Vec::new();
    if found.len() == 0 {
        candidates.push(string_of("haru/haru.model3.json"));
    } else {
        let mut i: usize = 0;
        while i < found.len()
            invariant
                i <= found.len(),
                candidates@.len() == i,
                paths_view(candidates@) == paths_view(found@).take(i as int),
            decreases found.len() - i,
        {
            let c = found[i].clone();
            let ghost before = candidates@;
            candidates.push(c);
            assert forall|k: int| 0 <= k <= i implies #[trigger] paths_view(candidates@)[k]
                == paths_view(found@)[k] by {
                if k < i {
                    assert(candidates@[k] == before[k]);
                    assert(paths_view(before)[k] == paths_view(found@).take(i as int)[k]);
                }
            }
            assert(paths_view(candidates@) =~= paths_view(found@).take(i + 1));
            i = i + 1;
        }
        assert(paths_view(found@).take(found.len() as int) =~= paths_view(found@));
    }
    assert(paths_view(candidates@) =~= all);
    // offered paths
    let mut kept: Vec<String> = Vec::new();
    let mut i: usize = 0;
    while i < candidates.len()
        invariant
            i <= candidates.len(),
            paths_view(kept@) == offered_models(paths_view(candidates@).take(i as int)),
        decreases candidates.len() - i,
    {
        let ghost pre = paths_view(candidates@).take(i + 1);
        assert(pre.drop_last() =~= paths_view(candidates@).take(i as int));
        if is_offered(candidates[i].as_str()) {
            kept.push(candidates[i].clone());
            assert(paths_view(kept@) =~= offered_models(pre));
        }
        i = i + 1;
    }
    assert(paths_view(candidates@).take(candidates.len() as int) =~= paths_view(candidates@));
    // without adjacent repeats
    let mut uniq: Vec<String> = Vec::new();
    let mut i: usize = 0;
    while i < kept.len()
        invariant
            i <= kept.len(),
            paths_view(uniq@) == dedup_adjacent(paths_view(kept@).take(i as int)),
        decreases kept.len() - i,
    {
        let ghost pre = paths_view(kept@).take(i + 1);
        assert(pre.drop_last() =~= paths_view(kept@).take(i as int));
        if i == 0 || !str_equal(kept[i].as_str(), kept[i - 1].as_str()) {
            uniq.push(kept[i].clone());
            assert(paths_view(uniq@) =~= dedup_adjacent(pre));
        }
        i = i + 1;
    }
    assert(paths_view(kept@).take(kept.len() as int) =~= paths_view(kept@));
    // the first path of each file name
    let mut out: Vec<String> = Vec::new();
    let mut names: Vec<String> = Vec::new();
    let mut i: usize = 0;
    while i < uniq.len()
        invariant
            i <= uniq.len(),
            names@.len() == i,
            forall|j: int| 0 <= j < i ==> #[trigger] names@[j]@ == base_name(uniq@[j]@),
            paths_view(out@) == first_per_name(paths_view(uniq@).take(i as int)),
        decreases uniq.len() - i,
    {
        let ghost ps = paths_view(uniq@);
        let ghost pre = ps.take(i + 1);
        assert(pre.drop_last() =~= ps.take(i as int));
        let name = file_name(uniq[i].as_str());
        let mut seen = false;
        let mut j: usize = 0;
        while j < i
            invariant
                i < uniq.len(),
                j <= i,
                names@.len() == i,
                name@ == base_name(uniq@[i as int]@),
                forall|t: int| 0 <= t < i ==> #[trigger] names@[t]@ == base_name(uniq@[t]@),
                seen == exists|t: int| 0 <= t < j && base_name(uniq@[t]@) == name@,
            decreases i - j,
        {
            if str_equal(names[j].as_str(), name.as_str()) {
                seen = true;
            }
            proof {
                assert(names@[j as int]@ == base_name(uniq@[j as int]@));
                if seen {
                    if !(exists|t: int| 0 <= t < j && base_name(uniq@[t]@) == name@) {
                        assert(base_name(uniq@[j as int]@) == name@);
                    }
                }
            }
            j = j + 1;
        }
        proof {
            assert(seen == name_seen_before(pre, i as int)) by {
                if seen {
                    let t = choose|t: int| 0 <= t < i && base_name(uniq@[t]@) == name@;
                    assert(pre[t] == uniq@[t]@);
                    assert(pre[i as int] == uniq@[i as int]@);
                }
                if name_seen_before(pre, i as int) {
                    let t = choose|t: int| 0 <= t < i && base_name(pre[t]) == base_name(pre[i as int]);
                    assert(pre[t] == uniq@[t]@);
                    assert(pre[i as int] == uniq@[i as int]@);
                }
            }
        }
        if !seen {
            out.push(uniq[i].clone());
            assert(paths_view(out@) =~= first_per_name(pre));
        }
        names.push(name);
        i = i + 1;
    }
    assert(paths_view(uniq@).take(uniq.len() as int) =~= paths_view(uniq@));
    sort_strings(&mut out);
    out
}

/// Every path kept once per file name comes from `ps`.
proof fn lemma_first_per_name_from(ps: Seq<Seq<char>>)
    ensures
        forall|i: int|
            0 <= i < first_per_name(ps).len() ==> exists|j: int|
                0 <= j < ps.len() && ps[j] == #[trigger] first_per_name(ps)[i],
    decreases ps.len(),
{
    if ps.len() > 0 {
        let pre = ps.drop_last();
        lemma_first_per_name_from(pre);
        let r = first_per_name(ps);
        assert forall|i: int| 0 <= i < r.len() implies exists|j: int|
            0 <= j < ps.len() && ps[j] == #[trigger] r[i] by {
            if i < first_per_name(pre).len() {
                let j = choose|j: int| 0 <= j < pre.len() && pre[j] == first_per_name(pre)[i];
                assert(ps[j] == r[i]);
            } else {
                assert(ps[ps.len() - 1] == r[i]);
            }
        }
    }
}

/// No two paths kept once per file name share their file name.
proof fn lemma_first_per_name_distinct(ps: Seq<Seq<char>>)
    ensures
        forall|i: int, j: int|
            0 <= i < j < first_per_name(ps).len() ==> base_name(#[trigger] first_per_name(ps)[i])
                != base_name(#[trigger] first_per_name(ps)[j]),
    decreases ps.len(),
{
    if ps.len() > 0 {
        let pre = ps.drop_last();
        lemma_first_per_name_distinct(pre);
        lemma_first_per_name_from(pre);
        let r = first_per_name(ps);
        let q = first_per_name(pre);
        if !name_seen_before(ps, ps.len() - 1) {
            assert forall|i: int, j: int| 0 <= i < j < r.len() implies base_name(#[trigger] r[i])
                != base_name(#[trigger] r[j]) by {
                if j == r.len() - 1 {
                    let k = choose|k: int| 0 <= k < pre.len() && pre[k] == q[i];
                    assert(ps[k] == r[i]);
                    assert(r[j] == ps[ps.len() - 1]);
                } else {
                    assert(r[i] == q[i] && r[j] == q[j]);
                }
            }
        }
    }
}

/// Every offered path passes the filter and comes from the input.
proof fn lemma_offered_models(ps: Seq<Seq<char>>)
    ensures
        forall|i: int|
            0 <= i < offered_models(ps).len() ==> offered(#[trigger] offered_models(ps)[i]),
    decreases ps.len(),
{
    if ps.len() > 0 {
        let pre = ps.drop_last();
        lemma_offered_models(pre);
        let r = offered_models(ps);
        assert forall|i: int| 0 <= i < r.len() implies offered(#[trigger] r[i]) by {
            if i < offered_models(pre).len() {
                assert(r[i] == offered_models(pre)[i]);
            }
        }
    }
}

/// Dropping adjacent repeats keeps only elements of the input.
proof fn lemma_dedup_from(ps: Seq<Seq<char>>)
    ensures
        forall|i: int|
            0 <= i < dedup_adjacent(ps).len() ==> exists|j: int|
                0 <= j < ps.len() && ps[j] == #[trigger] dedup_adjacent(ps)[i],
    decreases ps.len(),
{
    if ps.len() > 1 {
        let pre = ps.drop_last();
        lemma_dedup_from(pre);
        let r = dedup_adjacent(ps);
        assert forall|i: int| 0 <= i < r.len() implies exists|j: int|
            0 <= j < ps.len() && ps[j] == #[trigger] r[i] by {
            if i < dedup_adjacent(pre).len() {
                let j = choose|j: int| 0 <= j < pre.len() && pre[j] == dedup_adjacent(pre)[i];
                assert(ps[j] == r[i]);
            } else {
                assert(ps[ps.len() - 1] == r[i]);
            }
        }
    } else if ps.len() == 1 {
        assert(ps[0] == dedup_adjacent(ps)[0]);
    }
}

/// Model-list law: the models offered never include an excluded one, and
/// no two of them have the same file name.
pub proof fn lemma_selection_offered_and_distinct(found: Seq<Seq<char>>)
    ensures
        forall|i: int|
            0 <= i < model_selection(found).len() ==> offered(#[trigger] model_selection(found)[i]),
        forall|i: int, j: int|
            0 <= i < j < model_selection(found).len() ==> base_name(
                #[trigger] model_selection(found)[i],
            ) != base_name(#[trigger] model_selection(found)[j]),
{
    let all = if found.len() == 0 {
        seq![fallback_model()]
    } else {
        found
    };
    let o = offered_models(all);
    let d = dedup_adjacent(o);
    lemma_offered_models(all);
    lemma_dedup_from(o);
    lemma_first_per_name_from(d);
    lemma_first_per_name_distinct(d);
    let r = first_per_name(d);
    assert forall|i: int| 0 <= i < r.len() implies offered(#[trigger] r[i]) by {
        let j = choose|j: int| 0 <= j < d.len() && d[j] == r[i];
        let k = choose|k: int| 0 <= k < o.len() && o[k] == d[j];
    }
}

} // verus!
