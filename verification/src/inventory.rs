//! Operations on the in-memory inventory: the ordered list of products
//! that the interface reads and mutates, mirrored to the store after
//! every change.
//!
//! Positions shown to the user are one-based; an out-of-range position
//! is reported, never silently ignored.

use vstd::prelude::*;

use crate::codec::sp_number;
use crate::persist::parse_number;
use crate::persist::str_to_chars;
use crate::product::Product;
use crate::product::ProductModel;

verus! {

/// Why a deletion request was rejected.
#[derive(Debug, Clone, Copy, PartialEq, Eq, Structural)]
pub enum DeleteError {
    NotANumber,
    OutOfRange,
}

/// Appends a product at the end of the inventory.
pub fn append_product(products: &mut Vec<Product>, p: Product)
    ensures
        final(products)@ == old(products)@.push(p),
        final(products).deep_view() == old(products).deep_view().push(p@),
{
    let ghost dv = products.deep_view();
    products.push(p);
    proof {
        assert(products.deep_view() =~= dv.push(p@));
    }
}

/// Removes the product at a one-based position. Positions outside
/// `1..=len` are rejected as out of range and leave the inventory
/// unchanged; otherwise the addressed product is removed and returned,
/// with the survivors keeping their relative order.
pub fn remove_at(products: &mut Vec<Product>, index: usize) -> (r: Result<Product, DeleteError>)
    ensures
        match r {
            Ok(p) => 1 <= index && index <= old(products)@.len() && p == old(products)@[index - 1]
                && final(products)@ == old(products)@.remove(index - 1),
            Err(e) => e == DeleteError::OutOfRange && (index == 0 || index > old(products)@.len())
                && final(products)@ == old(products)@,
        },
{
    if index == 0 || index > products.len() {
        return Err(DeleteError::OutOfRange);
    }
    let p = products.remove(index - 1);
    Ok(p)
}

/// Which records survive a deletion by name: those whose name differs
/// from the deleted one.
pub open spec fn keeps(name: Seq<char>) -> spec_fn(ProductModel) -> bool {
    |m: ProductModel| m.name != name
}

fn filtered(products: &Vec<Product>, name: &String) -> (kept: Vec<Product>)
    ensures
        kept.deep_view() == products.deep_view().filter(keeps(name@)),
{
    let ghost dv = products.deep_view();
    let mut kept: Vec<Product> = Vec::new();
    proof {
        reveal(Seq::filter);
        assert(kept.deep_view() =~= Seq::<ProductModel>::empty());
        assert(dv.take(0) =~= Seq::<ProductModel>::empty());
        assert(Seq::<ProductModel>::empty().filter(keeps(name@)) =~= Seq::<
            ProductModel,
        >::empty());
    }
    let mut k: usize = 0;
    while k < products.len()
        invariant
            k <= products.len(),
            dv == products.deep_view(),
            kept.deep_view() == dv.take(k as int).filter(keeps(name@)),
        decreases products.len() - k,
    {
        let keep_it = products[k].product_name != *name;
        proof {
            assert(dv.take(k as int + 1).drop_last() =~= dv.take(k as int));
            assert(dv.take(k as int + 1).last() == dv[k as int]);
            assert(dv[k as int] == products@[k as int]@);
        }
        if keep_it {
            let ghost kdv = kept.deep_view();
            kept.push(products[k].duplicate());
            proof {
                reveal(Seq::filter);
                assert(kept.deep_view() =~= kdv.push(products@[k as int]@));
                assert(keeps(name@)(dv[k as int]));
                assert(dv.take(k as int + 1).filter(keeps(name@)) =~= dv.take(k as int).filter(
                    keeps(name@),
                ).push(dv[k as int]));
            }
        } else {
            proof {
                reveal(Seq::filter);
                assert(!keeps(name@)(dv[k as int]));
                assert(dv.take(k as int + 1).filter(keeps(name@)) =~= dv.take(k as int).filter(
                    keeps(name@),
                ));
            }
        }
        k += 1;
    }
    proof {
        assert(dv.take(products.len() as int) =~= dv);
    }
    kept
}

/// Removes every record whose name equals the given one, keeping the
/// survivors in their relative order. Deleting an absent name succeeds
/// and changes nothing.
pub fn delete_by_name(products: &mut Vec<Product>, name: &String)
    ensures
        final(products).deep_view() == old(products).deep_view().filter(keeps(name@)),
{
    let kept = filtered(products, name);
    *products = kept;
}

/// Deleting a name that no record bears leaves the inventory unchanged:
/// the survivors of such a deletion are the whole inventory.
pub proof fn lemma_delete_absent(s: Seq<ProductModel>, name: Seq<char>)
    requires
        forall|i: int| 0 <= i < s.len() ==> (#[trigger] s[i]).name != name,
    ensures
        s.filter(keeps(name)) == s,
    decreases s.len(),
{
    reveal(Seq::filter);
    if s.len() == 0 {
        assert(s.filter(keeps(name)) =~= s);
    } else {
        assert forall|i: int| 0 <= i < s.drop_last().len() implies (#[trigger] s.drop_last()[
        i]).name != name by {
            assert(s.drop_last()[i] == s[i]);
        }
        lemma_delete_absent(s.drop_last(), name);
        assert(keeps(name)(s.last()));
        assert(s.filter(keeps(name)) =~= s.drop_last().push(s.last()));
        assert(s.drop_last().push(s.last()) =~= s);
    }
}

/// A read-only, one-based enumeration of the inventory for rendering.
pub fn snapshot_for_display(products: &Vec<Product>) -> (r: Vec<(usize, Product)>)
    ensures
        r@.len() == products@.len(),
        forall|i: int|
            0 <= i < r@.len() ==> (#[trigger] r@[i]).0 == i + 1 && r@[i].1@ == products@[i]@,
{
    let mut r: Vec<(usize, Product)> = Vec::new();
    let mut k: usize = 0;
    while k < products.len()
        invariant
            k <= products.len(),
            r@.len() == k,
            forall|i: int|
                0 <= i < k ==> (#[trigger] r@[i]).0 == i + 1 && r@[i].1@ == products@[i]@,
        decreases products.len() - k,
    {
        r.push((k + 1, products[k].duplicate()));
        k += 1;
    }
    r
}

/// What a textual one-based position means: a run of decimal digits and
/// nothing else, with a value a machine index can hold.
pub open spec fn parse_index_spec(t: Seq<char>) -> Option<nat> {
    match sp_number(t) {
        Some((v, rest)) => if rest.len() == 0 && v <= usize::MAX {
            Some(v)
        } else {
            None
        },
        None => None,
    }
}

/// Deletes by a one-based position given as text, as typed into the
/// form. Text that is not a plain number is rejected as such; a number
/// outside `1..=len` is rejected as out of range; otherwise the
/// addressed product is removed.
pub fn delete(products: &mut Vec<Product>, index_text: &str) -> (r: Result<(), DeleteError>)
    ensures
        match parse_index_spec(index_text@) {
            None => r == Err::<(), DeleteError>(DeleteError::NotANumber) && final(products)@ == old(
                products,
            )@,
            Some(idx) => if 1 <= idx && idx <= old(products)@.len() {
                r == Ok::<(), DeleteError>(()) && final(products)@ == old(products)@.remove(
                    idx - 1,
                )
            } else {
                r == Err::<(), DeleteError>(DeleteError::OutOfRange) && final(products)@ == old(
                    products,
                )@
            },
        },
{
    let chars = str_to_chars(index_text);
    proof {
        assert(chars@.skip(0) =~= chars@);
    }
    let idx: usize = match parse_number(&chars, 0) {
        Some((v, j)) => {
            if j == chars.len() && v <= usize::MAX as u64 {
                v as usize
            } else {
                return Err(DeleteError::NotANumber);
            }
        },
        None => {
            return Err(DeleteError::NotANumber);
        },
    };
    match remove_at(products, idx) {
        Ok(_) => Ok(()),
        Err(e) => Err(e),
    }
}

} // verus!
