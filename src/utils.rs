use vstd::prelude::*;

use vstd::arithmetic::div_mod::lemma_fundamental_div_mod_converse;
use vstd::multiset::Multiset;
use vstd::string::{StrSliceExecFns, StringExecFns};

use crate::names::push_char;
use crate::scan_result::views;

verus! {

/// Item `x` of `array` sits in bucket `x % amount`, at position `x / amount`.
pub open spec fn placed(buckets: Seq<Vec<String>>, array: Seq<String>, amount: int, x: int) -> bool {
    &&& x % amount < buckets.len()
    &&& x / amount < buckets[x % amount]@.len()
    &&& buckets[x % amount]@[x / amount] == array[x]
}

/// Position `k` of bucket `j` holds item `j + k * amount` of `array`.
pub open spec fn drawn(buckets: Seq<Vec<String>>, array: Seq<String>, amount: int, j: int, k: int) -> bool {
    &&& j + k * amount < array.len()
    &&& buckets[j]@[k] == array[j + k * amount]
}

/// The items of each bucket.
pub open spec fn contents(buckets: Seq<Vec<String>>) -> Seq<Seq<String>> {
    buckets.map_values(|b: Vec<String>| b@)
}

/// The buckets one after the other.
pub open spec fn flatten(buckets: Seq<Seq<String>>) -> Seq<String>
    decreases buckets.len(),
{
    if buckets.len() == 0 {
        Seq::empty()
    } else {
        flatten(buckets.drop_last()) + buckets.last()
    }
}

/// `count` buckets after dealing `array` round-robin over `amount` places.
spec fn dealt(array: Seq<String>, amount: int, count: nat) -> Seq<Seq<String>>
    decreases array.len(),
{
    if array.len() == 0 {
        Seq::new(count, |j: int| Seq::<String>::empty())
    } else {
        let before = dealt(array.drop_last(), amount, count);
        let j = (array.len() - 1) % amount;
        before.update(j, before[j].push(array.last()))
    }
}

proof fn lemma_flatten_push_into(buckets: Seq<Seq<String>>, j: int, x: String)
    requires
        0 <= j < buckets.len(),
    ensures
        flatten(buckets.update(j, buckets[j].push(x))).to_multiset() == flatten(
            buckets,
        ).to_multiset().insert(x),
    decreases buckets.len(),
{
    broadcast use vstd::seq_lib::group_to_multiset_ensures;
    broadcast use vstd::seq_lib::lemma_multiset_commutative;

    let after = buckets.update(j, buckets[j].push(x));
    let k = buckets.len() - 1;
    if j == k {
        assert(after.drop_last() =~= buckets.drop_last());
        assert(flatten(after) =~= (flatten(buckets.drop_last()) + buckets[j]).push(x));
    } else {
        assert(after.drop_last() =~= buckets.drop_last().update(j, buckets[j].push(x)));
        lemma_flatten_push_into(buckets.drop_last(), j, x);
        assert(flatten(after) == flatten(after.drop_last()) + buckets.last());
        assert(flatten(after).to_multiset() =~= flatten(buckets).to_multiset().insert(x));
    }
}

proof fn lemma_flatten_empty(count: nat)
    ensures
        flatten(Seq::new(count, |j: int| Seq::<String>::empty())) =~= Seq::<String>::empty(),
    decreases count,
{
    if count > 0 {
        let b = Seq::new(count, |j: int| Seq::<String>::empty());
        assert(b.drop_last() =~= Seq::new((count - 1) as nat, |j: int| Seq::<String>::empty()));
        lemma_flatten_empty((count - 1) as nat);
    }
}

proof fn lemma_dealt_keeps_items(array: Seq<String>, amount: int, count: nat)
    requires
        amount > 0,
        forall|i: int| 0 <= i < array.len() ==> #[trigger] (i % amount) < count,
    ensures
        dealt(array, amount, count).len() == count,
        flatten(dealt(array, amount, count)).to_multiset() == array.to_multiset(),
    decreases array.len(),
{
    broadcast use vstd::seq_lib::group_to_multiset_ensures;

    if array.len() == 0 {
        lemma_flatten_empty(count);
        assert(array.to_multiset() =~= Multiset::empty());
        assert(flatten(dealt(array, amount, count)).to_multiset() =~= Multiset::empty());
    } else {
        let n = array.len() - 1;
        assert((n % amount) < count);
        lemma_dealt_keeps_items(array.drop_last(), amount, count);
        lemma_flatten_push_into(dealt(array.drop_last(), amount, count), n % amount, array.last());
        assert(array =~= array.drop_last().push(array.last()));
    }
}

/// Deals `array` round-robin into `amount` buckets, item `i` into bucket
/// `i % amount`, keeping the order of the items within each bucket, and
/// drops the buckets that stay empty (only the last ones can).
pub fn distribute(array: &[String], amount: usize) -> (r: Vec<Vec<String>>)
    requires
        amount > 0 || array@.len() == 0,
    ensures
        r@.len() == if array@.len() < amount { array@.len() as int } else { amount as int },
        forall|j: int, k: int|
            0 <= j < r@.len() && 0 <= k < r@[j]@.len() ==> #[trigger] drawn(
                r@,
                array@,
                amount as int,
                j,
                k,
            ),
        forall|i: int| 0 <= i < array@.len() ==> #[trigger] placed(r@, array@, amount as int, i),
        flatten(contents(r@)).to_multiset() == array@.to_multiset(),
{
    let n = array.len();
    let count: usize = if n < amount { n } else { amount };
    let mut buckets: Vec<Vec<String>> = Vec::new();
    for j in 0..count
        invariant
            buckets@.len() == j,
            forall|b: int| 0 <= b < j ==> (#[trigger] buckets@[b])@.len() == 0,
    {
        buckets.push(Vec::new());
    }
    let mut pointer: usize = 0;
    let ghost mut round: int = 0;
    assert(array@.take(0) =~= Seq::<String>::empty());
    assert forall|b: int| 0 <= b < count implies #[trigger] contents(buckets@)[b] =~= Seq::<
        String,
    >::empty() by {
        assert(buckets@[b]@.len() == 0);
    }
    assert(contents(buckets@) =~= dealt(array@.take(0), amount as int, count as nat));
    let mut i: usize = 0;
    while i < n
        invariant
            i <= n,
            n == array@.len(),
            count == (if n < amount { n } else { amount }),
            buckets@.len() == count,
            amount > 0 || n == 0,
            0 <= round,
            i == round * amount + pointer,
            pointer < amount || n == 0,
            round > 0 ==> count == amount,
            forall|b: int|
                0 <= b < count ==> (#[trigger] buckets@[b])@.len() == round + if b < pointer {
                    1int
                } else {
                    0int
                },
            forall|b: int, k: int|
                0 <= b < count && 0 <= k < buckets@[b]@.len() ==> #[trigger] drawn(
                    buckets@,
                    array@.take(i as int),
                    amount as int,
                    b,
                    k,
                ),
            forall|x: int| 0 <= x < i ==> #[trigger] placed(buckets@, array@, amount as int, x),
            contents(buckets@) == dealt(array@.take(i as int), amount as int, count as nat),
        decreases n - i,
    {
        let ghost before = buckets@;
        proof {
            lemma_fundamental_div_mod_converse(i as int, amount as int, round, pointer as int);
            if round > 0 {
                assert(round * amount >= amount) by (nonlinear_arith)
                    requires
                        round > 0,
                        amount > 0,
                ;
            }
        }
        let item = array[i].clone();
        let mut bucket = Vec::new();
        std::mem::swap(&mut bucket, &mut buckets[pointer]);
        bucket.push(item);
        buckets.set(pointer, bucket);
        proof {
            assert(buckets@[pointer as int]@ == before[pointer as int]@.push(array@[i as int]));
            assert(array@.take(i + 1).drop_last() =~= array@.take(i as int));
            assert(contents(buckets@) =~= dealt(array@.take(i + 1), amount as int, count as nat));
            assert forall|b: int| 0 <= b < count && b != pointer implies buckets@[b] == before[b] by {}
            assert forall|x: int| 0 <= x < i + 1 implies #[trigger] placed(buckets@, array@, amount as int, x) by {
                if x < i {
                    let b = x % (amount as int);
                    assert(placed(before, array@, amount as int, x));
                    if b == pointer {
                    } else {
                        assert(buckets@[b] == before[b]);
                    }
                }
            }
            assert forall|b: int, k: int|
                0 <= b < count && 0 <= k < buckets@[b]@.len() implies #[trigger] drawn(
                    buckets@,
                    array@.take(i + 1),
                    amount as int,
                    b,
                    k,
                ) by {
                if b == pointer && k == round {
                } else {
                    assert(drawn(before, array@.take(i as int), amount as int, b, k));
                    if b != pointer {
                        assert(buckets@[b] == before[b]);
                    }
                    assert(b + k * amount < i) by {
                        if b < pointer {
                            assert(k <= round);
                            assert(k * amount <= round * amount) by (nonlinear_arith)
                                requires
                                    k <= round,
                                    amount > 0,
                            ;
                        } else {
                            assert(k < round);
                            assert(k * amount <= (round - 1) * amount) by (nonlinear_arith)
                                requires
                                    k <= round - 1,
                                    amount > 0,
                            ;
                            assert((round - 1) * amount == round * amount - amount)
                                by (nonlinear_arith);
                        }
                    }
                }
            }
        }
        pointer = pointer + 1;
        if pointer == amount {
            pointer = 0;
            proof {
                round = round + 1;
                assert((round - 1) * amount + amount == round * amount) by (nonlinear_arith);
                if n >= 1 {
                    assert(round * amount >= amount) by (nonlinear_arith)
                        requires
                            round > 0,
                            amount > 0,
                    ;
                }
            }
        }
        i = i + 1;
    }
    assert(array@.take(n as int) =~= array@);
    proof {
        assert forall|x: int| 0 <= x < n implies #[trigger] (x % (amount as int)) < count by {
            assert(placed(buckets@, array@, amount as int, x));
        }
        if n > 0 {
            lemma_dealt_keeps_items(array@, amount as int, count as nat);
        } else {
            lemma_dealt_keeps_items(array@, 1, count as nat);
            assert(array@ =~= Seq::<String>::empty());
        }
    }
    buckets
}

/// The decimal digit for `d`, below ten.
pub open spec fn digit_char(d: nat) -> char {
    if d == 0 {
        '0'
    } else if d == 1 {
        '1'
    } else if d == 2 {
        '2'
    } else if d == 3 {
        '3'
    } else if d == 4 {
        '4'
    } else if d == 5 {
        '5'
    } else if d == 6 {
        '6'
    } else if d == 7 {
        '7'
    } else if d == 8 {
        '8'
    } else {
        '9'
    }
}

/// The decimal numeral of `n`, without leading zeros.
pub open spec fn decimal(n: nat) -> Seq<char>
    decreases n,
{
    if n < 10 {
        seq![digit_char(n)]
    } else {
        decimal(n / 10).push(digit_char(n % 10))
    }
}

fn digit(d: usize) -> (c: char)
    requires
        d < 10,
    ensures
        c == digit_char(d as nat),
{
    match d {
        0 => '0',
        1 => '1',
        2 => '2',
        3 => '3',
        4 => '4',
        5 => '5',
        6 => '6',
        7 => '7',
        8 => '8',
        _ => '9',
    }
}

/// The decimal numeral of `n`.
pub fn decimal_string(n: usize) -> (r: String)
    ensures
        r@ == decimal(n as nat),
    decreases n,
{
    if n < 10 {
        let mut s = String::new();
        push_char(&mut s, digit(n));
        assert(s@ =~= decimal(n as nat));
        s
    } else {
        let mut s = decimal_string(n / 10);
        push_char(&mut s, digit(n % 10));
        s
    }
}

/// `digits` with a comma between each group of three, counted from the
/// right.
pub open spec fn grouped(digits: Seq<char>) -> Seq<char>
    decreases digits.len(),
{
    if digits.len() <= 3 {
        digits
    } else {
        grouped(digits.subrange(0, digits.len() - 3)) + seq![','] + digits.subrange(
            digits.len() - 3,
            digits.len() as int,
        )
    }
}

fn group_digits(digits: &str) -> (r: String)
    ensures
        r@ == grouped(digits@),
    decreases digits@.len(),
{
    let len = digits.unicode_len();
    if len <= 3 {
        String::from_str(digits)
    } else {
        let mut s = group_digits(digits.substring_char(0, len - 3));
        s.append(",");
        s.append(digits.substring_char(len - 3, len));
        proof {
            reveal_strlit(",");
        }
        s
    }
}

/// `n` in decimal with thousands separated by commas: `1234567` gives
/// `1,234,567`.
pub fn format_num(n: usize) -> (r: String)
    ensures
        r@ == grouped(decimal(n as nat)),
{
    let digits = decimal_string(n);
    group_digits(digits.as_str())
}

/// One line of a numbered list: `3.) text`.
pub open spec fn entry_line(index: nat, item: Seq<char>) -> Seq<char> {
    decimal(index) + seq!['.', ')', ' '] + item
}

/// The items numbered from 1, one line each, with `sep` between lines.
pub open spec fn numbered(items: Seq<Seq<char>>, sep: Seq<char>) -> Seq<char>
    decreases items.len(),
{
    if items.len() == 0 {
        Seq::empty()
    } else if items.len() == 1 {
        entry_line(1, items[0])
    } else {
        numbered(items.drop_last(), sep) + sep + entry_line(items.len(), items.last())
    }
}

/// The items numbered from 1, with `sep` between entries.
pub fn numbered_list(items: &[String], sep: &str) -> (r: String)
    ensures
        r@ == numbered(views(items@), sep@),
{
    let mut out = String::new();
    let mut i: usize = 0;
    assert(views(items@).take(0) =~= Seq::<Seq<char>>::empty());
    while i < items.len()
        invariant
            i <= items@.len(),
            out@ == numbered(views(items@).take(i as int), sep@),
        decreases items@.len() - i,
    {
        let ghost before = views(items@).take(i as int);
        let ghost after = views(items@).take(i + 1);
        assert(after.drop_last() =~= before);
        if i > 0 {
            out.append(sep);
        }
        let number = decimal_string(i + 1);
        out.append(number.as_str());
        out.append(".) ");
        out.append(items[i].as_str());
        proof {
            reveal_strlit(".) ");
        }
        assert(out@ =~= numbered(after, sep@));
        i = i + 1;
    }
    assert(views(items@).take(items@.len() as int) =~= views(items@));
    out
}

/// The items numbered from 1, one per line: `1.) first`, `2.) second`.
pub fn pretty_interface(data: &[String]) -> (r: String)
    ensures
        r@ == numbered(views(data@), seq!['\n']),
{
    let sep = "\n";
    proof {
        reveal_strlit("\n");
    }
    assert(sep@ =~= seq!['\n']);
    numbered_list(data, sep)
}

/// Relies on `chrono::Local::now` and `chrono::Datelike::day`: the day of
/// the month of the local date, which chrono documents as 1 to 31.
#[verifier::external_body]
pub fn todays_day() -> (r: u8)
    ensures
        1 <= r <= 31,
{
    chrono::Datelike::day(&chrono::Local::now()) as u8
}

} // verus!
