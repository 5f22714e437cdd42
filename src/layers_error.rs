//! Rejections of unknown layer and view names, with the names expected.

use vstd::prelude::*;
use vstd::seq_lib::lemma_multiset_commutative;
use crate::invalidation::string_views;
use crate::map_layers::{LayerDescriptor, MapLayers};

verus! {

/// A name that the layer description does not know.
#[derive(Debug, PartialEq, Eq)]
pub enum LayersError {
    LayerNotFound { layer_name: String, expected_names: Vec<String> },
    ViewNotFound { view_name: String, expected_names: Vec<String> },
}

/// Strict lexicographic order of texts, character by character.
pub open spec fn text_lt(a: Seq<char>, b: Seq<char>) -> bool
    decreases a.len(),
{
    if a.len() == 0 {
        b.len() > 0
    } else if b.len() == 0 {
        false
    } else if a[0] != b[0] {
        (a[0] as int) < (b[0] as int)
    } else {
        text_lt(a.drop_first(), b.drop_first())
    }
}

pub open spec fn text_le(a: Seq<char>, b: Seq<char>) -> bool {
    a == b || text_lt(a, b)
}

/// Each text is ordered before or equal to the next.
pub open spec fn texts_sorted(s: Seq<Seq<char>>) -> bool {
    forall|i: int| 0 <= i < s.len() - 1 ==> text_le(#[trigger] s[i], s[i + 1])
}

/// The names of a list of named entries, in order.
pub open spec fn entry_names<T>(entries: Seq<(String, T)>) -> Seq<Seq<char>> {
    entries.map_values(|e: (String, T)| e.0@)
}

/// `sorted` holds the names of `entries`, each as often, in ascending order.
pub open spec fn sorted_names_of<T>(sorted: Seq<String>, entries: Seq<(String, T)>) -> bool {
    &&& texts_sorted(string_views(sorted))
    &&& string_views(sorted).to_multiset() == entry_names(entries).to_multiset()
}

proof fn lemma_text_total(a: Seq<char>, b: Seq<char>)
    ensures
        a == b || text_lt(a, b) || text_lt(b, a),
    decreases a.len(),
{
    if a.len() > 0 && b.len() > 0 && a[0] == b[0] {
        lemma_text_total(a.drop_first(), b.drop_first());
        if a.drop_first() == b.drop_first() {
            assert(a =~= seq![a[0]] + a.drop_first());
            assert(b =~= seq![b[0]] + b.drop_first());
        }
    } else if a.len() > 0 && b.len() > 0 {
        assert((a[0] as int) != (b[0] as int));
    } else if a.len() == 0 && b.len() == 0 {
        assert(a =~= b);
    }
}

/// Whether `a` is strictly before `b`.
fn text_less(a: &String, b: &String) -> (r: bool)
    ensures
        r == text_lt(a@, b@),
{
    let sa = a.as_str();
    let sb = b.as_str();
    let la = sa.unicode_len();
    let lb = sb.unicode_len();
    let mut i: usize = 0;
    assert(a@.skip(0) =~= a@);
    assert(b@.skip(0) =~= b@);
    assert(a@.subrange(0, 0) =~= b@.subrange(0, 0));
    while i < la && i < lb
        invariant
            la == a@.len(),
            lb == b@.len(),
            sa@ == a@,
            sb@ == b@,
            i <= la,
            i <= lb,
            a@.subrange(0, i as int) == b@.subrange(0, i as int),
            text_lt(a@, b@) == text_lt(a@.skip(i as int), b@.skip(i as int)),
        decreases la - i,
    {
        let ca = sa.get_char(i);
        let cb = sb.get_char(i);
        if ca != cb {
            assert(a@.skip(i as int)[0] == ca && b@.skip(i as int)[0] == cb);
            return (ca as u32) < (cb as u32);
        }
        assert(a@.skip(i as int).drop_first() =~= a@.skip(i + 1));
        assert(b@.skip(i as int).drop_first() =~= b@.skip(i + 1));
        assert(a@.subrange(0, i + 1) =~= a@.subrange(0, i as int).push(ca));
        assert(b@.subrange(0, i + 1) =~= b@.subrange(0, i as int).push(cb));
        i = i + 1;
    }
    i < lb
}

/// The names of `entries`, sorted.
fn sorted_names<T>(entries: &Vec<(String, T)>) -> (r: Vec<String>)
    ensures
        sorted_names_of(r@, entries@),
{
    let mut out: Vec<String> = Vec::new();
    let mut k: usize = 0;
    assert(string_views(out@) =~= entry_names(entries@.take(0)));
    while k < entries.len()
        invariant
            k <= entries@.len(),
            texts_sorted(string_views(out@)),
            string_views(out@).to_multiset() == entry_names(entries@.take(k as int)).to_multiset(),
        decreases entries@.len() - k,
    {
        let name = entries[k].0.clone();
        let mut p: usize = out.len();
        while p > 0 && text_less(&name, &out[p - 1])
            invariant
                p <= out@.len(),
                texts_sorted(string_views(out@)),
                forall|j: int| p <= j < out@.len() ==> text_lt(name@, #[trigger] out@[j]@),
            decreases p,
        {
            p = p - 1;
        }
        proof {
            if p > 0 {
                lemma_text_total(name@, out@[p - 1]@);
            }
        }
        let ghost before = string_views(out@);
        out.insert(p, name);
        proof {
            let after = string_views(out@);
            assert(after =~= before.insert(p as int, name@));
            assert forall|i: int| 0 <= i < after.len() - 1 implies text_le(#[trigger] after[i], after[i + 1]) by {
                if i + 1 < p {
                    assert(after[i] == before[i] && after[i + 1] == before[i + 1]);
                } else if i + 1 == p {
                    assert(after[i] == before[i] && after[i + 1] == name@);
                } else if i == p {
                    assert(after[i] == name@ && after[i + 1] == before[i]);
                } else {
                    assert(after[i] == before[i - 1] && after[i + 1] == before[i]);
                }
            }
            assert(before =~= before.take(p as int) + before.skip(p as int));
            assert(after =~= before.take(p as int) + (seq![name@] + before.skip(p as int)));
            lemma_multiset_commutative(before.take(p as int), before.skip(p as int));
            lemma_multiset_commutative(before.take(p as int), seq![name@] + before.skip(p as int));
            lemma_multiset_commutative(seq![name@], before.skip(p as int));
            assert(entry_names(entries@.take(k + 1)) =~= entry_names(entries@.take(k as int)).push(name@));
            lemma_multiset_commutative(entry_names(entries@.take(k as int)), seq![name@]);
            assert(entry_names(entries@.take(k as int)).push(name@) =~= entry_names(entries@.take(k as int)) + seq![name@]);
            assert(after.to_multiset() =~= string_views(out@).to_multiset());
            assert(before.to_multiset() =~= before.take(p as int).to_multiset().add(before.skip(p as int).to_multiset()));
            assert(after.to_multiset() =~= before.to_multiset().add(seq![name@].to_multiset()));
        }
        k = k + 1;
    }
    assert(entries@.take(entries@.len() as int) =~= entries@);
    out
}

impl LayersError {
    /// No layer is named `name`; the expected names are every layer's, sorted.
    pub fn new_layer_not_found(name: &str, map_layers: &MapLayers) -> (r: LayersError)
        ensures
            r matches LayersError::LayerNotFound { layer_name, expected_names }
                && layer_name@ == name@ && sorted_names_of(expected_names@, map_layers.layers@),
    {
        LayersError::LayerNotFound {
            layer_name: String::from_str(name),
            expected_names: sorted_names(&map_layers.layers),
        }
    }

    /// The layer has no view named `name`; the expected names are its views', sorted.
    pub fn new_view_not_found(name: &str, layer: &LayerDescriptor) -> (r: LayersError)
        ensures
            r matches LayersError::ViewNotFound { view_name, expected_names }
                && view_name@ == name@ && sorted_names_of(expected_names@, layer.views@),
    {
        LayersError::ViewNotFound {
            view_name: String::from_str(name),
            expected_names: sorted_names(&layer.views),
        }
    }

    /// The machine-readable kind of the error.
    pub fn get_type(&self) -> (r: &'static str)
        ensures
            self is LayerNotFound ==> r@ == "editoast:layers:LayerNotFound"@,
            self is ViewNotFound ==> r@ == "editoast:layers:ViewNotFound"@,
    {
        match self {
            LayersError::LayerNotFound { .. } => "editoast:layers:LayerNotFound",
            LayersError::ViewNotFound { .. } => "editoast:layers:ViewNotFound",
        }
    }
}

} // verus!
