//! A model of the CBOR values that tool calls and tool results carry.

use vstd::prelude::*;

verus! {

/// One CBOR data item, as tool arguments and tool results carry it.
///
/// Floating-point items are not modelled: no logic of this crate reads
/// them.
#[derive(Debug)]
pub enum CborValue {
    Null,
    Bool(bool),
    Integer(i128),
    Text(String),
    Bytes(Vec<u8>),
    Array(Vec<CborValue>),
    Dict(Vec<(CborValue, CborValue)>),
    Tag(u64, Box<CborValue>),
}

/// The mathematical content of a [`CborValue`].
pub enum CborView {
    Null,
    Bool(bool),
    Integer(int),
    Text(Seq<char>),
    Bytes(Seq<u8>),
    Array(Seq<CborView>),
    Dict(Seq<(CborView, CborView)>),
    Tag(nat, Box<CborView>),
}

/// The views of a sequence of values, in order.
pub open spec fn view_items(s: Seq<CborValue>) -> Seq<CborView>
    decreases s,
{
    if s.len() == 0 {
        Seq::empty()
    } else {
        proof {
            broadcast use vstd::seq::axiom_seq_subrange_decreases, vstd::seq::axiom_seq_index_decreases;
            assert(decreases_to!(s => s[s.len() - 1]));
            assert(decreases_to!(s => s.subrange(0, s.len() - 1)));
        }
        view_items(s.subrange(0, s.len() - 1)).push(s[s.len() - 1].view_of())
    }
}

/// The views of a sequence of key/value pairs, in order.
pub open spec fn view_entries(s: Seq<(CborValue, CborValue)>) -> Seq<(CborView, CborView)>
    decreases s,
{
    if s.len() == 0 {
        Seq::empty()
    } else {
        proof {
            broadcast use vstd::seq::axiom_seq_subrange_decreases, vstd::seq::axiom_seq_index_decreases;
            assert(decreases_to!(s => s[s.len() - 1]));
            assert(decreases_to!(s[s.len() - 1] => s[s.len() - 1].0));
            assert(decreases_to!(s[s.len() - 1] => s[s.len() - 1].1));
            assert(decreases_to!(s => s.subrange(0, s.len() - 1)));
        }
        view_entries(s.subrange(0, s.len() - 1)).push(
            (s[s.len() - 1].0.view_of(), s[s.len() - 1].1.view_of()),
        )
    }
}

/// `view_items` keeps the length and views each item in place.
pub proof fn lemma_view_items(s: Seq<CborValue>)
    ensures
        view_items(s).len() == s.len(),
        forall|k: int| 0 <= k < s.len() ==> #[trigger] view_items(s)[k] == s[k].view_of(),
    decreases s.len(),
{
    if s.len() > 0 {
        lemma_view_items(s.subrange(0, s.len() - 1));
    }
}

/// `view_entries` keeps the length and views each pair in place.
pub proof fn lemma_view_entries(s: Seq<(CborValue, CborValue)>)
    ensures
        view_entries(s).len() == s.len(),
        forall|k: int| 0 <= k < s.len() ==> #[trigger] view_entries(s)[k] == (s[k].0.view_of(), s[k].1.view_of()),
    decreases s.len(),
{
    if s.len() > 0 {
        lemma_view_entries(s.subrange(0, s.len() - 1));
    }
}

impl CborValue {
    pub open spec fn view_of(self) -> CborView
        decreases self,
    {
        match self {
            CborValue::Null => CborView::Null,
            CborValue::Bool(b) => CborView::Bool(b),
            CborValue::Integer(i) => CborView::Integer(i as int),
            CborValue::Text(s) => CborView::Text(s@),
            CborValue::Bytes(b) => CborView::Bytes(b@),
            CborValue::Array(items) => {
                proof {
                    broadcast use vstd::std_specs::vec::axiom_vec_decreases_to_view;
                    assert(decreases_to!(items => items@));
                }
                CborView::Array(view_items(items@))
            },
            CborValue::Dict(entries) => {
                proof {
                    broadcast use vstd::std_specs::vec::axiom_vec_decreases_to_view;
                    assert(decreases_to!(entries => entries@));
                }
                CborView::Dict(view_entries(entries@))
            },
            CborValue::Tag(t, inner) => CborView::Tag(t as nat, Box::new(inner.view_of())),
        }
    }
}

impl CborValue {
    /// A copy of this value with the same content.
    pub fn deep_clone(&self) -> (res: CborValue)
        ensures
            res@ == self@,
        decreases self, 0nat,
    {
        match self {
            CborValue::Null => CborValue::Null,
            CborValue::Bool(b) => CborValue::Bool(*b),
            CborValue::Integer(i) => CborValue::Integer(*i),
            CborValue::Text(s) => CborValue::Text(s.clone()),
            CborValue::Bytes(b) => CborValue::Bytes(b.clone()),
            CborValue::Array(items) => CborValue::Array(clone_items(items)),
            CborValue::Dict(entries) => CborValue::Dict(clone_entries(entries)),
            CborValue::Tag(t, inner) => CborValue::Tag(*t, Box::new(inner.deep_clone())),
        }
    }
}

/// Copies a list of values, keeping each value's content.
fn clone_items(items: &Vec<CborValue>) -> (out: Vec<CborValue>)
    ensures
        view_items(out@) == view_items(items@),
    decreases items, 1nat,
{
    let mut out: Vec<CborValue> = Vec::new();
    let mut i: usize = 0;
    while i < items.len()
        invariant
            i <= items@.len(),
            out@.len() == i,
            forall|j: int| 0 <= j < i ==> #[trigger] out@[j].view_of() == items@[j].view_of(),
        decreases items@.len() - i,
    {
        proof {
            broadcast use vstd::std_specs::vec::axiom_vec_index_decreases;
            assert(decreases_to!(*items => items[i as int]));
        }
        out.push(items[i].deep_clone());
        i = i + 1;
    }
    proof {
        lemma_view_items(out@);
        lemma_view_items(items@);
        assert(view_items(out@) =~= view_items(items@));
    }
    out
}

/// Copies a list of key/value pairs, keeping each item's content.
fn clone_entries(entries: &Vec<(CborValue, CborValue)>) -> (out: Vec<(CborValue, CborValue)>)
    ensures
        view_entries(out@) == view_entries(entries@),
    decreases entries, 1nat,
{
    let mut out: Vec<(CborValue, CborValue)> = Vec::new();
    let mut i: usize = 0;
    while i < entries.len()
        invariant
            i <= entries@.len(),
            out@.len() == i,
            forall|j: int| 0 <= j < i ==> #[trigger] out@[j].0.view_of() == entries@[j].0.view_of() && out@[j].1.view_of() == entries@[j].1.view_of(),
        decreases entries@.len() - i,
    {
        proof {
            broadcast use vstd::std_specs::vec::axiom_vec_index_decreases;
            assert(decreases_to!(*entries => entries[i as int]));
        }
        let k = entries[i].0.deep_clone();
        let v = entries[i].1.deep_clone();
        out.push((k, v));
        i = i + 1;
    }
    proof {
        lemma_view_entries(out@);
        lemma_view_entries(entries@);
        assert(view_entries(out@) =~= view_entries(entries@));
    }
    out
}

impl View for CborValue {
    type V = CborView;

    open spec fn view(&self) -> CborView {
        self.view_of()
    }
}

} // verus!

verus! {

/// `view_entries` of a prefix extended by one element.
pub proof fn lemma_view_entries_take(s: Seq<(CborValue, CborValue)>, i: int)
    requires
        0 <= i < s.len(),
    ensures
        view_entries(s.take(i + 1)) == view_entries(s.take(i)).push(
            (s[i].0.view_of(), s[i].1.view_of()),
        ),
{
    assert(s.take(i + 1).subrange(0, i) =~= s.take(i));
}

/// `view_items` of a prefix extended by one element.
pub proof fn lemma_view_items_take(s: Seq<CborValue>, i: int)
    requires
        0 <= i < s.len(),
    ensures
        view_items(s.take(i + 1)) == view_items(s.take(i)).push(s[i].view_of()),
{
    assert(s.take(i + 1).subrange(0, i) =~= s.take(i));
}

/// A text item holding `s`.
pub fn text(s: &str) -> (res: CborValue)
    ensures
        res@ == CborView::Text(s@),
{
    CborValue::Text(crate::text::owned(s))
}

/// A map item with the given text keys, in order.
pub fn dict3(k0: &str, v0: CborValue, k1: &str, v1: CborValue, k2: &str, v2: CborValue) -> (res: CborValue)
    ensures
        res@ == CborView::Dict(seq![
            (CborView::Text(k0@), v0@),
            (CborView::Text(k1@), v1@),
            (CborView::Text(k2@), v2@),
        ]),
{
    let ghost g0 = v0@;
    let ghost g1 = v1@;
    let ghost g2 = v2@;
    let mut entries: Vec<(CborValue, CborValue)> = Vec::new();
    entries.push((text(k0), v0));
    entries.push((text(k1), v1));
    entries.push((text(k2), v2));
    proof {
        lemma_view_entries(entries@);
        assert(view_entries(entries@) =~= seq![
            (CborView::Text(k0@), g0),
            (CborView::Text(k1@), g1),
            (CborView::Text(k2@), g2),
        ]);
    }
    CborValue::Dict(entries)
}

} // verus!

verus! {

/// Viewing a prefix is taking a prefix of the view.
pub proof fn lemma_view_entries_prefix(s: Seq<(CborValue, CborValue)>, k: int)
    requires
        0 <= k <= s.len(),
    ensures
        view_entries(s.take(k)) == view_entries(s).take(k),
{
    lemma_view_entries(s.take(k));
    lemma_view_entries(s);
    assert(view_entries(s.take(k)) =~= view_entries(s).take(k));
}

/// Viewing a prefix is taking a prefix of the view.
pub proof fn lemma_view_items_prefix(s: Seq<CborValue>, k: int)
    requires
        0 <= k <= s.len(),
    ensures
        view_items(s.take(k)) == view_items(s).take(k),
{
    lemma_view_items(s.take(k));
    lemma_view_items(s);
    assert(view_items(s.take(k)) =~= view_items(s).take(k));
}

} // verus!
