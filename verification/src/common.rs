//! Values shared by both contract versions: account addresses, token
//! movements, and membership tests over address lists.

use vstd::prelude::*;

verus! {

/// An account or contract address, held as its strkey text. Two addresses
/// are the same party exactly when their text views are equal.
pub type Address = String;

/// One token movement that an entry point asks the host to perform, in the
/// order given, against the deployment's token.
#[derive(Clone, Debug, PartialEq, Eq)]
pub enum Transfer {
    /// `amount` moves from `from` into the contract's escrow.
    Deposit { from: Address, amount: i128 },
    /// `amount` moves out of the contract's escrow to `to`.
    Payout { to: Address, amount: i128 },
}

/// Net tokens moved into escrow by `ts`: deposits minus payouts.
pub open spec fn net_deposit(ts: Seq<Transfer>) -> int
    decreases ts.len(),
{
    if ts.len() == 0 {
        0
    } else {
        net_deposit(ts.drop_last()) + match ts.last() {
            Transfer::Deposit { amount, .. } => amount as int,
            Transfer::Payout { amount, .. } => -amount,
        }
    }
}


/// `a` occurs in `s`, comparing addresses by their text.
pub open spec fn has_addr(s: Seq<Address>, a: Address) -> bool {
    exists|i: int| 0 <= i < s.len() && #[trigger] s[i]@ == a@
}

/// No address occurs twice in `s`.
pub open spec fn distinct_addrs(s: Seq<Address>) -> bool {
    forall|i: int, j: int| 0 <= i < j < s.len() ==> #[trigger] s[i]@ != #[trigger] s[j]@
}

/// Every address of `a` occurs in `b`.
pub open spec fn subset_addrs(a: Seq<Address>, b: Seq<Address>) -> bool {
    forall|i: int| 0 <= i < a.len() ==> has_addr(b, #[trigger] a[i])
}

/// No address occurs in both `a` and `b`.
pub open spec fn disjoint_addrs(a: Seq<Address>, b: Seq<Address>) -> bool {
    forall|i: int| 0 <= i < a.len() ==> !has_addr(b, #[trigger] a[i])
}

/// Two addresses name the same party.
pub fn same_address(a: &Address, b: &Address) -> (r: bool)
    ensures
        r == (a@ == b@),
{
    a.eq(b)
}

/// Whether `a` occurs in `list`.
pub fn contains_address(list: &Vec<Address>, a: &Address) -> (r: bool)
    ensures
        r == has_addr(list@, *a),
{
    let mut i: usize = 0;
    while i < list.len()
        invariant
            i <= list.len(),
            forall|k: int| 0 <= k < i ==> list@[k]@ != a@,
        decreases list.len() - i,
    {
        if same_address(&list[i], a) {
            assert(list@[i as int]@ == a@);
            return true;
        }
        i = i + 1;
    }
    false
}

/// A copy of `list`.
pub fn copy_addresses(list: &Vec<Address>) -> (r: Vec<Address>)
    ensures
        r@ == list@,
{
    let mut r: Vec<Address> = Vec::new();
    let mut i: usize = 0;
    while i < list.len()
        invariant
            i <= list.len(),
            r@ == list@.subrange(0, i as int),
        decreases list.len() - i,
    {
        r.push(list[i].clone());
        i = i + 1;
    }
    assert(list@.subrange(0, list@.len() as int) == list@);
    r
}

/// A list without repeated addresses, all of whose addresses occur in `c`,
/// is no longer than `c`.
pub proof fn lemma_distinct_subset_len(a: Seq<Address>, c: Seq<Address>)
    requires
        distinct_addrs(a),
        subset_addrs(a, c),
    ensures
        a.len() <= c.len(),
{
    let f = |x: Address| x@;
    let av = a.map_values(f);
    let cv = c.map_values(f);
    assert(av.no_duplicates()) by {
        assert forall|i: int, j: int| 0 <= i < av.len() && 0 <= j < av.len() && i != j implies av[i]
            != av[j] by {
            if i < j {
                assert(a[i]@ != a[j]@);
            } else {
                assert(a[j]@ != a[i]@);
            }
        }
    }
    av.unique_seq_to_set();
    cv.lemma_cardinality_of_set();
    assert(av.to_set().subset_of(cv.to_set())) by {
        assert forall|x: Seq<char>| av.to_set().contains(x) implies cv.to_set().contains(x) by {
            let i = choose|i: int| 0 <= i < av.len() && av[i] == x;
            assert(has_addr(c, a[i]));
            let j = choose|j: int| 0 <= j < c.len() && #[trigger] c[j]@ == a[i]@;
            assert(cv[j] == x);
        }
    }
    vstd::set_lib::lemma_len_subset(av.to_set(), cv.to_set());
}

} // verus!
