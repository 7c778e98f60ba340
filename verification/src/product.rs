//! The product record: one inventory line item and its derived pricing
//! fields.
//!
//! All money amounts are integers counting thousandths of a currency
//! unit, so `20000` stands for a price of `20.0`. The derived fields are
//! computed once, when the record is created, and never recomputed.

use vstd::prelude::*;

verus! {

/// Mathematical model of a product record.
#[verifier::ext_equal]
pub ghost struct ProductModel {
    pub name: Seq<char>,
    pub quantity: nat,
    pub price_per_unit: nat,
    pub sales_tax: nat,
    pub total_price: nat,
}

/// One inventory line item.
///
/// `quantity` counts whole units; the three money fields count
/// thousandths of a currency unit.
#[derive(Debug, Clone, PartialEq)]
pub struct Product {
    pub product_name: String,
    pub quantity: usize,
    pub price_per_unit: u64,
    pub sales_tax: u64,
    pub total_price: u64,
}

impl View for Product {
    type V = ProductModel;

    open spec fn view(&self) -> ProductModel {
        ProductModel {
            name: self.product_name@,
            quantity: self.quantity as nat,
            price_per_unit: self.price_per_unit as nat,
            sales_tax: self.sales_tax as nat,
            total_price: self.total_price as nat,
        }
    }
}

impl DeepView for Product {
    type V = ProductModel;

    open spec fn deep_view(&self) -> ProductModel {
        self.view()
    }
}

/// The sales tax owed on one unit: one tenth of the unit price, rounded
/// down to a thousandth of a currency unit.
pub open spec fn spec_sales_tax(price_per_unit: nat) -> nat {
    price_per_unit / 10
}

/// The total price of a line item: unit price plus its tax, times the
/// quantity.
pub open spec fn spec_total_price(price_per_unit: nat, quantity: nat) -> nat {
    (price_per_unit + spec_sales_tax(price_per_unit)) * quantity
}

/// Why a creation request was rejected.
#[derive(Debug, Clone, Copy, PartialEq, Eq, Structural)]
pub enum ValidationError {
    EmptyName,
    InvalidQuantity,
    InvalidPrice,
}

/// Builds a product from validated form input: the name must be
/// non-empty and the quantity and unit price positive, and the derived
/// fields are filled in from the formulas above. Rejections are checked
/// in this order: name, quantity, price.
pub fn create(product_name: String, quantity: usize, price_per_unit: u64) -> (r: Result<
    Product,
    ValidationError,
>)
    requires
        spec_total_price(price_per_unit as nat, quantity as nat) <= u64::MAX,
    ensures
        match r {
            Ok(p) => product_name@.len() > 0 && quantity > 0 && price_per_unit > 0 && p@
                == (ProductModel {
                name: product_name@,
                quantity: quantity as nat,
                price_per_unit: price_per_unit as nat,
                sales_tax: spec_sales_tax(price_per_unit as nat),
                total_price: spec_total_price(price_per_unit as nat, quantity as nat),
            }),
            Err(e) => (product_name@.len() == 0 || quantity == 0 || price_per_unit == 0) && e
                == (if product_name@.len() == 0 {
                ValidationError::EmptyName
            } else if quantity == 0 {
                ValidationError::InvalidQuantity
            } else {
                ValidationError::InvalidPrice
            }),
        },
{
    if product_name.as_str().is_empty() {
        return Err(ValidationError::EmptyName);
    }
    if quantity == 0 {
        return Err(ValidationError::InvalidQuantity);
    }
    if price_per_unit == 0 {
        return Err(ValidationError::InvalidPrice);
    }
    let sales_tax: u64 = price_per_unit / 10;
    proof {
        assert(price_per_unit + sales_tax <= (price_per_unit + sales_tax) * quantity)
            by (nonlinear_arith)
            requires
                quantity >= 1,
                sales_tax >= 0,
                price_per_unit >= 0,
        ;
    }
    let unit_with_tax: u64 = price_per_unit + sales_tax;
    let total_price: u64 = unit_with_tax * (quantity as u64);
    Ok(
        Product {
            product_name,
            quantity,
            price_per_unit,
            sales_tax,
            total_price,
        },
    )
}

impl Product {
    /// An explicit copy with the same model. Verified code uses this
    /// rather than the derived clone, whose meaning Verus does not see.
    pub fn duplicate(&self) -> (r: Product)
        ensures
            r@ == self@,
    {
        Product {
            product_name: self.product_name.clone(),
            quantity: self.quantity,
            price_per_unit: self.price_per_unit,
            sales_tax: self.sales_tax,
            total_price: self.total_price,
        }
    }
}

} // verus!
