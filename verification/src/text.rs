//! Text building blocks: comparing strings and writing numbers in decimal.

use vstd::prelude::*;

verus! {

/// The decimal digit for `d`, which is below ten.
pub open spec fn digit_char(d: nat) -> char {
    if d == 0 {
        '0'
    } else if d == 1 {
        '1'
    } else if d == 2 {
        '2'
    } else if d == 3 {
        '3'
    } else if d == 4 {
        '4'
    } else if d == 5 {
        '5'
    } else if d == 6 {
        '6'
    } else if d == 7 {
        '7'
    } else if d == 8 {
        '8'
    } else {
        '9'
    }
}

/// The decimal numeral of `n`, without leading zeros.
pub open spec fn decimal(n: nat) -> Seq<char>
    decreases n,
{
    if n < 10 {
        seq![digit_char(n)]
    } else {
        decimal(n / 10).push(digit_char(n % 10))
    }
}

/// The numerals of `items`, separated by single commas.
pub open spec fn comma_list(items: Seq<u64>) -> Seq<char>
    decreases items.len(),
{
    if items.len() == 0 {
        seq![]
    } else if items.len() == 1 {
        decimal(items[0] as nat)
    } else {
        comma_list(items.drop_last()) + seq![','] + decimal(items.last() as nat)
    }
}

/// Whether two string slices hold the same characters.
pub fn same_text(a: &str, b: &str) -> (same: bool)
    ensures
        same == (a@ == b@),
{
    a.to_owned() == b.to_owned()
}

fn digit_text(d: u64) -> (text: &'static str)
    requires
        d < 10,
    ensures
        text@ == seq![digit_char(d as nat)],
{
    proof {
        reveal_strlit("0");
        reveal_strlit("1");
        reveal_strlit("2");
        reveal_strlit("3");
        reveal_strlit("4");
        reveal_strlit("5");
        reveal_strlit("6");
        reveal_strlit("7");
        reveal_strlit("8");
        reveal_strlit("9");
    }
    if d == 0 {
        "0"
    } else if d == 1 {
        "1"
    } else if d == 2 {
        "2"
    } else if d == 3 {
        "3"
    } else if d == 4 {
        "4"
    } else if d == 5 {
        "5"
    } else if d == 6 {
        "6"
    } else if d == 7 {
        "7"
    } else if d == 8 {
        "8"
    } else {
        "9"
    }
}

/// Writes `n` in decimal.
pub fn decimal_text(n: u64) -> (text: String)
    ensures
        text@ == decimal(n as nat),
    decreases n,
{
    if n < 10 {
        digit_text(n).to_owned()
    } else {
        let mut text = decimal_text(n / 10);
        text.append(digit_text(n % 10));
        text
    }
}

/// Writes `items` in decimal, separated by commas.
pub fn comma_list_text(items: &[u64]) -> (text: String)
    ensures
        text@ == comma_list(items@),
{
    let mut text = String::new();
    let mut i: usize = 0;
    while i < items.len()
        invariant
            i <= items.len(),
            text@ == comma_list(items@.take(i as int)),
        decreases items.len() - i,
    {
        if i > 0 {
            proof {
                reveal_strlit(",");
            }
            text.append(",");
            assert(","@ == seq![',']);
        }
        text.append(decimal_text(items[i]).as_str());
        proof {
            let taken = items@.take(i + 1);
            assert(taken.drop_last() == items@.take(i as int));
            assert(taken.last() == items@[i as int]);
        }
        i = i + 1;
    }
    assert(items@.take(i as int) == items@);
    text
}

/// Whether `c` does not occur in `text`.
pub open spec fn free_of(text: Seq<char>, c: char) -> bool {
    forall|i: int| 0 <= i < text.len() ==> text[i] != c
}

/// A text is cut at its last separator in one way only: the part behind it,
/// which holds no separator, and the part before it are both determined.
pub proof fn lemma_last_separator_splits(
    head_a: Seq<char>,
    tail_a: Seq<char>,
    head_b: Seq<char>,
    tail_b: Seq<char>,
    sep: char,
)
    requires
        free_of(tail_a, sep),
        free_of(tail_b, sep),
        head_a + seq![sep] + tail_a == head_b + seq![sep] + tail_b,
    ensures
        head_a == head_b,
        tail_a == tail_b,
{
    let a = head_a + seq![sep] + tail_a;
    let b = head_b + seq![sep] + tail_b;
    assert(a[head_a.len() as int] == sep);
    assert(b[head_b.len() as int] == sep);
    assert(a.len() == head_a.len() + 1 + tail_a.len());
    assert(b.len() == head_b.len() + 1 + tail_b.len());
    if head_a.len() < head_b.len() {
        assert(a[head_b.len() as int] == tail_a[head_b.len() - head_a.len() - 1]);
    } else if head_b.len() < head_a.len() {
        assert(b[head_a.len() as int] == tail_b[head_a.len() - head_b.len() - 1]);
    }
    assert(head_a.len() == head_b.len());
    assert forall|i: int| 0 <= i < head_a.len() implies head_a[i] == head_b[i] by {
        assert(a[i] == head_a[i]);
        assert(b[i] == head_b[i]);
    }
    assert(head_a =~= head_b);
    assert forall|i: int| 0 <= i < tail_a.len() implies tail_a[i] == tail_b[i] by {
        assert(a[head_a.len() + 1 + i] == tail_a[i]);
        assert(b[head_a.len() + 1 + i] == tail_b[i]);
    }
    assert(tail_a =~= tail_b);
}

/// A numeral is not empty and holds neither a comma nor a colon.
pub proof fn lemma_decimal_is_plain(n: nat)
    ensures
        decimal(n).len() > 0,
        free_of(decimal(n), ','),
        free_of(decimal(n), ':'),
    decreases n,
{
    if n >= 10 {
        lemma_decimal_is_plain(n / 10);
    }
}

/// Different numbers have different numerals.
pub proof fn lemma_decimal_injective(a: nat, b: nat)
    requires
        decimal(a) == decimal(b),
    ensures
        a == b,
    decreases a,
{
    assert(decimal(a).last() == digit_char(a % 10));
    assert(decimal(b).last() == digit_char(b % 10));
    assert(a % 10 == b % 10);
    if a >= 10 && b >= 10 {
        assert(decimal(a).drop_last() == decimal(a / 10));
        assert(decimal(b).drop_last() == decimal(b / 10));
        lemma_decimal_injective(a / 10, b / 10);
    } else if a >= 10 {
        lemma_decimal_is_plain(a / 10);
    } else if b >= 10 {
        lemma_decimal_is_plain(b / 10);
    }
}

/// A comma list holds no colon, and it is empty only for no numbers.
pub proof fn lemma_comma_list_is_plain(items: Seq<u64>)
    ensures
        free_of(comma_list(items), ':'),
        comma_list(items).len() == 0 <==> items.len() == 0,
    decreases items.len(),
{
    if items.len() == 1 {
        lemma_decimal_is_plain(items[0] as nat);
    } else if items.len() > 1 {
        lemma_comma_list_is_plain(items.drop_last());
        lemma_decimal_is_plain(items.last() as nat);
    }
}

/// Different number sequences have different comma lists.
pub proof fn lemma_comma_list_injective(a: Seq<u64>, b: Seq<u64>)
    requires
        comma_list(a) == comma_list(b),
    ensures
        a == b,
    decreases a.len(),
{
    lemma_comma_list_is_plain(a);
    lemma_comma_list_is_plain(b);
    if a.len() == 0 || b.len() == 0 {
        assert(a =~= b);
    } else {
        lemma_decimal_is_plain(a.last() as nat);
        lemma_decimal_is_plain(b.last() as nat);
        if a.len() == 1 && b.len() == 1 {
            lemma_decimal_injective(a[0] as nat, b[0] as nat);
        } else if a.len() == 1 {
            assert(comma_list(b)[comma_list(b.drop_last()).len() as int] == ',');
        } else if b.len() == 1 {
            assert(comma_list(a)[comma_list(a.drop_last()).len() as int] == ',');
        } else {
            lemma_last_separator_splits(
                comma_list(a.drop_last()),
                decimal(a.last() as nat),
                comma_list(b.drop_last()),
                decimal(b.last() as nat),
                ',',
            );
            lemma_comma_list_injective(a.drop_last(), b.drop_last());
            lemma_decimal_injective(a.last() as nat, b.last() as nat);
        }
        assert(a =~= a.drop_last().push(a.last()));
        assert(b =~= b.drop_last().push(b.last()));
        assert(a =~= b);
    }
}

/// The number that a text of decimal digits stands for.
pub open spec fn numeral_value(text: Seq<char>) -> int
    decreases text.len(),
{
    if text.len() == 0 {
        0
    } else {
        10 * numeral_value(text.drop_last()) + (text.last() as int - '0' as int)
    }
}

/// A numeral stands for its number: read digit by digit it gives the number
/// back. It is made of digits alone and has no leading zero.
pub proof fn law_numeral_stands_for_its_number(n: nat)
    ensures
        numeral_value(decimal(n)) == n,
        decimal(n).len() > 0,
        forall|i: int|
            0 <= i < decimal(n).len() ==> '0' as int <= #[trigger] decimal(n)[i] as int
                && decimal(n)[i] as int <= '9' as int,
        n > 0 ==> decimal(n)[0] != '0',
        n < 10 ==> decimal(n).len() == 1,
    decreases n,
{
    if n < 10 {
        let text = decimal(n);
        assert(text.drop_last() =~= seq![]);
        assert(numeral_value(text.drop_last()) == 0);
    } else {
        law_numeral_stands_for_its_number(n / 10);
        assert(decimal(n).drop_last() =~= decimal(n / 10));
        assert(decimal(n)[0] == decimal(n / 10)[0]);
        assert(decimal(n).last() as int - '0' as int == n % 10);
    }
}

/// A comma list is its items with a comma between any two: no items give no
/// text, one item its numeral, and two lists in a row the one, a comma and the
/// other.
pub proof fn law_comma_list_joins_its_items(a: Seq<u64>, b: Seq<u64>, item: u64)
    ensures
        comma_list(Seq::<u64>::empty()).len() == 0,
        comma_list(seq![item]) == decimal(item as nat),
        a.len() > 0 && b.len() > 0 ==> comma_list(a + b) == comma_list(a) + seq![','] + comma_list(
            b,
        ),
    decreases b.len(),
{
    if a.len() > 0 && b.len() > 0 {
        let both = a + b;
        assert(both.last() == b.last());
        if b.len() == 1 {
            assert(both.drop_last() =~= a);
        } else {
            law_comma_list_joins_its_items(a, b.drop_last(), item);
            assert(both.drop_last() =~= a + b.drop_last());
            assert(comma_list(both) =~= comma_list(a) + seq![','] + comma_list(b));
        }
    }
}

} // verus!
