//! Event kinds: reading the stored `kinds` column and putting kinds in order.

use vstd::prelude::*;
use vstd::relations::{sorted_by, total_ordering};
use vstd::seq_lib::lemma_sorted_unique;

verus! {

/// The parse error of `serde_json`. Nothing inside it is looked at: that a
/// column did not parse is all that matters.
#[verifier::external_type_specification]
#[verifier::external_body]
pub struct ExJsonError(serde_json::Error);

/// What `serde_json::from_str` makes of `text` when asked for a list of
/// unsigned 64-bit numbers: the numbers, or nothing where it reports an error.
pub uninterp spec fn kinds_json(text: Seq<char>) -> Option<Seq<u64>>;

/// Calls `serde_json::from_str` for a `Vec<u64>`.
///
/// Claimed of it: whether it succeeds, and with which numbers, depends on the
/// text alone. Which texts are lists of numbers is left to that crate.
#[verifier::external_body]
fn kinds_from_json(text: &str) -> (parsed: Result<Vec<u64>, serde_json::Error>)
    ensures
        match parsed {
            Ok(kinds) => kinds_json(text@) == Some(kinds@),
            Err(_) => kinds_json(text@) is None,
        },
{
    serde_json::from_str(text)
}

/// The kinds of a column: those it parses to, and none where it does not parse.
pub open spec fn column_kinds(parsed: Option<Seq<u64>>) -> Seq<u64> {
    match parsed {
        Some(kinds) => kinds,
        None => seq![],
    }
}

/// The kinds of a column that parsed like this.
pub fn kinds_of_column(parsed: Option<Vec<u64>>) -> (kinds: Vec<u64>)
    ensures
        kinds@ == match parsed {
            Some(kinds) => column_kinds(Some(kinds@)),
            None => column_kinds(None),
        },
        parsed is Some ==> kinds@ == parsed->0@,
        parsed is None ==> kinds@.len() == 0,
{
    match parsed {
        Some(kinds) => kinds,
        None => Vec::new(),
    }
}

/// Decodes a `kinds` column.
///
/// A malformed column decodes as empty: the filter made from it matches
/// nothing, which is the right failure for a row that cannot be interpreted.
pub fn decode_kinds(column: &str) -> (kinds: Vec<u64>)
    ensures
        kinds@ == column_kinds(kinds_json(column@)),
        kinds_json(column@) is Some ==> kinds@ == kinds_json(column@)->0,
        kinds_json(column@) is None ==> kinds@.len() == 0,
{
    let parsed = match kinds_from_json(column) {
        Ok(kinds) => Some(kinds),
        Err(_) => None,
    };
    kinds_of_column(parsed)
}

/// The order of kinds.
pub open spec fn kind_order() -> spec_fn(u64, u64) -> bool {
    |a: u64, b: u64| a <= b
}

/// `kinds` in ascending order, each as often as it occurs.
pub open spec fn ascending(kinds: Seq<u64>) -> Seq<u64> {
    kinds.sort_by(kind_order())
}

/// The order of kinds is total.
proof fn lemma_kind_order_is_total()
    ensures
        total_ordering(kind_order()),
{
}

/// `ascending` is the one ordered sequence with the same occurrences.
pub proof fn lemma_ascending_is_unique(kinds: Seq<u64>, ordered: Seq<u64>)
    requires
        sorted_by(ordered, kind_order()),
        ordered.to_multiset() == kinds.to_multiset(),
    ensures
        ordered == ascending(kinds),
{
    lemma_kind_order_is_total();
    kinds.lemma_sort_by_ensures(kind_order());
    lemma_sorted_unique(ordered, ascending(kinds), kind_order());
}

/// Two kind lists have the same ascending order exactly when they hold the
/// same kinds, each equally often.
pub proof fn lemma_ascending_forgets_order_only(a: Seq<u64>, b: Seq<u64>)
    ensures
        ascending(a) == ascending(b) <==> a.to_multiset() == b.to_multiset(),
{
    lemma_kind_order_is_total();
    a.lemma_sort_by_ensures(kind_order());
    b.lemma_sort_by_ensures(kind_order());
    if a.to_multiset() == b.to_multiset() {
        lemma_sorted_unique(ascending(a), ascending(b), kind_order());
    }
}

/// Copies `kinds` in ascending order.
pub fn sorted_kinds(kinds: &[u64]) -> (sorted: Vec<u64>)
    ensures
        sorted@ == ascending(kinds@),
        sorted@.to_multiset() == kinds@.to_multiset(),
        forall|x: int, y: int| 0 <= x <= y < sorted.len() ==> sorted[x] <= sorted[y],
{
    let mut sorted: Vec<u64> = Vec::new();
    let mut i: usize = 0;
    assert(sorted@ =~= kinds@.take(0));
    while i < kinds.len()
        invariant
            i <= kinds.len(),
            sorted.len() == i,
            forall|x: int, y: int| 0 <= x <= y < sorted.len() ==> sorted[x] <= sorted[y],
            sorted@.to_multiset() == kinds@.take(i as int).to_multiset(),
        decreases kinds.len() - i,
    {
        let kind = kinds[i];
        let mut at: usize = i;
        while at > 0 && sorted[at - 1] > kind
            invariant
                at <= i,
                sorted.len() == i,
                forall|x: int, y: int| 0 <= x <= y < sorted.len() ==> sorted[x] <= sorted[y],
                forall|x: int| at <= x < sorted.len() ==> sorted[x] > kind,
            decreases at,
        {
            at = at - 1;
        }
        let ghost before = sorted@;
        sorted.insert(at, kind);
        proof {
            broadcast use vstd::multiset::group_multiset_axioms;

            sorted@.to_multiset_ensures();
            kinds@.take(i as int).to_multiset_ensures();
            assert(kinds@.take(i + 1) =~= kinds@.take(i as int).push(kind));
            assert(sorted@.remove(at as int) =~= before);
            assert(sorted@.remove(at as int).to_multiset() =~= sorted@.to_multiset().remove(kind));
            assert(sorted@.contains(kind)) by {
                assert(sorted@[at as int] == kind);
            }
            assert(sorted@.to_multiset() =~= before.to_multiset().insert(kind));
        }
        i = i + 1;
    }
    proof {
        assert(kinds@.take(i as int) =~= kinds@);
        lemma_ascending_is_unique(kinds@, sorted@);
    }
    sorted
}

/// Putting kinds in order loses none, adds none and repeats none, and leaves
/// no kind before a smaller one.
pub proof fn law_ascending_keeps_the_kinds_and_orders_them(kinds: Seq<u64>)
    ensures
        ascending(kinds).len() == kinds.len(),
        ascending(kinds).to_multiset() == kinds.to_multiset(),
        forall|x: int, y: int|
            0 <= x <= y < kinds.len() ==> ascending(kinds)[x] <= ascending(kinds)[y],
{
    lemma_kind_order_is_total();
    kinds.lemma_sort_by_ensures(kind_order());
    let ordered = ascending(kinds);
    ordered.to_multiset_ensures();
    kinds.to_multiset_ensures();
    assert forall|x: int, y: int| 0 <= x <= y < kinds.len() implies ordered[x] <= ordered[y] by {
        if x < y {
            assert(kind_order()(ordered[x], ordered[y]));
        }
    }
}

/// A column that parses has the kinds it parses to, all of them and in their
/// order; one that does not parse has none.
pub proof fn law_column_has_the_kinds_it_parses_to(parsed: Option<Seq<u64>>)
    ensures
        parsed is Some ==> column_kinds(parsed) == parsed->0,
        parsed is None ==> column_kinds(parsed).len() == 0,
{
}

} // verus!
