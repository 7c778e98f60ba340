//! The shape of the persisted inventory document.
//!
//! The store is one text document holding a JSON array of product
//! objects, each with the five record fields; string values escape the
//! quote and backslash characters, and the integer fields are written in
//! decimal. This module defines the document format mathematically —
//! what the encoder emits and what the parser accepts — and proves that
//! parsing inverts encoding, so a saved inventory always loads back
//! unchanged.

use vstd::prelude::*;

use crate::product::Product;
use crate::product::ProductModel;

verus! {

/// Field bounds that every product held in executable code satisfies.
pub open spec fn wf_model(p: ProductModel) -> bool {
    &&& p.quantity <= usize::MAX
    &&& p.price_per_unit <= u64::MAX
    &&& p.sales_tax <= u64::MAX
    &&& p.total_price <= u64::MAX
}

// ---------------------------------------------------------------------
// Decimal numbers
// ---------------------------------------------------------------------

pub open spec fn is_digit(c: char) -> bool {
    c == '0' || c == '1' || c == '2' || c == '3' || c == '4' || c == '5' || c == '6' || c == '7'
        || c == '8' || c == '9'
}

pub open spec fn digit_val(c: char) -> nat {
    if c == '1' {
        1
    } else if c == '2' {
        2
    } else if c == '3' {
        3
    } else if c == '4' {
        4
    } else if c == '5' {
        5
    } else if c == '6' {
        6
    } else if c == '7' {
        7
    } else if c == '8' {
        8
    } else if c == '9' {
        9
    } else {
        0
    }
}

pub open spec fn digit_char(d: nat) -> char {
    if d == 1 {
        '1'
    } else if d == 2 {
        '2'
    } else if d == 3 {
        '3'
    } else if d == 4 {
        '4'
    } else if d == 5 {
        '5'
    } else if d == 6 {
        '6'
    } else if d == 7 {
        '7'
    } else if d == 8 {
        '8'
    } else if d == 9 {
        '9'
    } else {
        '0'
    }
}

/// The decimal digits of `n`, most significant first, with no leading
/// zeros (a single `'0'` for zero).
pub open spec fn enc_u(n: nat) -> Seq<char>
    decreases n,
{
    if n < 10 {
        seq![digit_char(n)]
    } else {
        enc_u(n / 10).push(digit_char(n % 10))
    }
}

/// The value of a digit sequence read in decimal.
pub open spec fn digits_val(s: Seq<char>) -> nat
    decreases s.len(),
{
    if s.len() == 0 {
        0
    } else {
        digits_val(s.drop_last()) * 10 + digit_val(s.last())
    }
}

pub open spec fn pow10(n: nat) -> nat
    decreases n,
{
    if n == 0 {
        1
    } else {
        10 * pow10((n - 1) as nat)
    }
}

pub open spec fn all_digits(s: Seq<char>) -> bool {
    forall|i: int| 0 <= i < s.len() ==> is_digit(s[i])
}

/// How many digits stand at the front of `t`.
pub open spec fn digit_count(t: Seq<char>) -> nat
    decreases t.len(),
{
    if t.len() > 0 && is_digit(t[0]) {
        1 + digit_count(t.drop_first())
    } else {
        0
    }
}

/// Reads a decimal number from the front of `t`: at least one digit,
/// taken greedily, with a value that fits in a machine word. Returns the
/// value and the unread remainder.
pub open spec fn sp_number(t: Seq<char>) -> Option<(nat, Seq<char>)> {
    let k = digit_count(t) as int;
    let v = digits_val(t.take(k));
    if k >= 1 && v <= u64::MAX {
        Some((v, t.skip(k)))
    } else {
        None
    }
}

// ---------------------------------------------------------------------
// Strings
// ---------------------------------------------------------------------

/// How one character of a name is written inside a quoted string: quote
/// and backslash get a backslash before them, all else stands as is.
pub open spec fn esc_char(c: char) -> Seq<char> {
    if c == '"' || c == '\\' {
        seq!['\\', c]
    } else {
        seq![c]
    }
}

pub open spec fn enc_str(s: Seq<char>) -> Seq<char>
    decreases s.len(),
{
    if s.len() == 0 {
        Seq::empty()
    } else {
        esc_char(s[0]) + enc_str(s.drop_first())
    }
}

/// Reads the body of a quoted string up to and including the closing
/// quote, undoing the escapes. Returns the string value and the unread
/// remainder.
pub open spec fn sp_str_body(t: Seq<char>) -> Option<(Seq<char>, Seq<char>)>
    decreases t.len(),
{
    if t.len() == 0 {
        None
    } else if t[0] == '"' {
        Some((Seq::empty(), t.drop_first()))
    } else if t[0] == '\\' {
        if t.len() >= 2 && (t[1] == '"' || t[1] == '\\') {
            match sp_str_body(t.skip(2)) {
                Some(p) => Some((seq![t[1]] + p.0, p.1)),
                None => None,
            }
        } else {
            None
        }
    } else {
        match sp_str_body(t.drop_first()) {
            Some(p) => Some((seq![t[0]] + p.0, p.1)),
            None => None,
        }
    }
}

// ---------------------------------------------------------------------
// Fixed pieces of a product object
// ---------------------------------------------------------------------

pub open spec fn lit_open() -> Seq<char> {
    seq!['{', '"', 'p', 'r', 'o', 'd', 'u', 'c', 't', '_', 'n', 'a', 'm', 'e', '"', ':', '"']
}

pub open spec fn lit_qty() -> Seq<char> {
    seq![',', '"', 'q', 'u', 'a', 'n', 't', 'i', 't', 'y', '"', ':']
}

pub open spec fn lit_price() -> Seq<char> {
    seq![',', '"', 'p', 'r', 'i', 'c', 'e', '_', 'p', 'e', 'r', '_', 'u', 'n', 'i', 't', '"', ':']
}

pub open spec fn lit_tax() -> Seq<char> {
    seq![',', '"', 's', 'a', 'l', 'e', 's', '_', 't', 'a', 'x', '"', ':']
}

pub open spec fn lit_total() -> Seq<char> {
    seq![',', '"', 't', 'o', 't', 'a', 'l', '_', 'p', 'r', 'i', 'c', 'e', '"', ':']
}

/// Reads an expected fixed piece from the front of `t` and returns the
/// unread remainder.
pub open spec fn sp_lit(t: Seq<char>, lit: Seq<char>) -> Option<Seq<char>> {
    if lit.len() <= t.len() && t.take(lit.len() as int) == lit {
        Some(t.skip(lit.len() as int))
    } else {
        None
    }
}

// ---------------------------------------------------------------------
// Product objects
// ---------------------------------------------------------------------

pub open spec fn enc_product(p: ProductModel) -> Seq<char> {
    lit_open() + enc_str(p.name) + seq!['"'] + lit_qty() + enc_u(p.quantity) + lit_price() + enc_u(
        p.price_per_unit,
    ) + lit_tax() + enc_u(p.sales_tax) + lit_total() + enc_u(p.total_price) + seq!['}']
}

pub open spec fn sp_product(t: Seq<char>) -> Option<(ProductModel, Seq<char>)> {
    match sp_lit(t, lit_open()) {
        None => None,
        Some(t1) => match sp_str_body(t1) {
            None => None,
            Some((name, t2)) => match sp_lit(t2, lit_qty()) {
                None => None,
                Some(t3) => match sp_number(t3) {
                    None => None,
                    Some((quantity, t4)) => if quantity > usize::MAX {
                        None
                    } else {
                        match sp_lit(t4, lit_price()) {
                            None => None,
                            Some(t5) => match sp_number(t5) {
                                None => None,
                                Some((price_per_unit, t6)) => match sp_lit(t6, lit_tax()) {
                                    None => None,
                                    Some(t7) => match sp_number(t7) {
                                        None => None,
                                        Some((sales_tax, t8)) => match sp_lit(t8, lit_total()) {
                                            None => None,
                                            Some(t9) => match sp_number(t9) {
                                                None => None,
                                                Some((total_price, t10)) => match sp_lit(
                                                    t10,
                                                    seq!['}'],
                                                ) {
                                                    None => None,
                                                    Some(t11) => Some(
                                                        (
                                                            ProductModel {
                                                                name,
                                                                quantity,
                                                                price_per_unit,
                                                                sales_tax,
                                                                total_price,
                                                            },
                                                            t11,
                                                        ),
                                                    ),
                                                },
                                            },
                                        },
                                    },
                                },
                            },
                        }
                    },
                },
            },
        },
    }
}

// ---------------------------------------------------------------------
// The whole document
// ---------------------------------------------------------------------

pub open spec fn enc_items(s: Seq<ProductModel>) -> Seq<char>
    decreases s.len(),
{
    if s.len() == 0 {
        Seq::empty()
    } else if s.len() == 1 {
        enc_product(s[0])
    } else {
        enc_product(s[0]) + seq![','] + enc_items(s.drop_first())
    }
}

/// The document written for an inventory: the records in order,
/// comma-separated, inside one pair of brackets.
pub open spec fn enc_inventory(s: Seq<ProductModel>) -> Seq<char> {
    seq!['['] + enc_items(s) + seq![']']
}

/// Reads one or more comma-separated product objects from the front of
/// `t`.
pub open spec fn sp_items(t: Seq<char>) -> Option<(Seq<ProductModel>, Seq<char>)>
    decreases t.len(),
    via sp_items_dec
{
    match sp_product(t) {
        None => None,
        Some((p, t1)) => if t1.len() > 0 && t1[0] == ',' {
            match sp_items(t1.drop_first()) {
                None => None,
                Some((ps, t2)) => Some((seq![p] + ps, t2)),
            }
        } else {
            Some((seq![p], t1))
        },
    }
}

#[via_fn]
proof fn sp_items_dec(t: Seq<char>) {
    lemma_sp_product_rest_len(t);
}

/// Reads a whole document: an inventory, with nothing after it.
pub open spec fn sp_inventory(t: Seq<char>) -> Option<Seq<ProductModel>> {
    match sp_lit(t, seq!['[']) {
        None => None,
        Some(t1) => if t1 == seq![']'] {
            Some(Seq::empty())
        } else {
            match sp_items(t1) {
                None => None,
                Some((ps, t2)) => if t2 == seq![']'] {
                    Some(ps)
                } else {
                    None
                },
            }
        },
    }
}

/// What loading a stored document yields: the inventory it holds, or the
/// empty inventory where the document does not parse.
pub open spec fn fail_open_spec(t: Seq<char>) -> Seq<ProductModel> {
    match sp_inventory(t) {
        Some(s) => s,
        None => Seq::empty(),
    }
}

// ---------------------------------------------------------------------
// Length facts (termination and greediness)
// ---------------------------------------------------------------------

pub proof fn lemma_digit_count_le(t: Seq<char>)
    ensures
        digit_count(t) <= t.len(),
    decreases t.len(),
{
    if t.len() > 0 && is_digit(t[0]) {
        lemma_digit_count_le(t.drop_first());
    }
}

pub proof fn lemma_sp_str_body_rest_len(t: Seq<char>)
    ensures
        sp_str_body(t) matches Some(p) ==> p.1.len() < t.len(),
    decreases t.len(),
{
    if t.len() == 0 {
    } else if t[0] == '"' {
    } else if t[0] == '\\' {
        if t.len() >= 2 && (t[1] == '"' || t[1] == '\\') {
            lemma_sp_str_body_rest_len(t.skip(2));
        }
    } else {
        lemma_sp_str_body_rest_len(t.drop_first());
    }
}

pub proof fn lemma_sp_number_rest_len(t: Seq<char>)
    ensures
        sp_number(t) matches Some(p) ==> p.1.len() < t.len(),
{
    lemma_digit_count_le(t);
}

pub proof fn lemma_sp_product_rest_len(t: Seq<char>)
    ensures
        sp_product(t) matches Some(p) ==> p.1.len() < t.len(),
{
    if let Some(t1) = sp_lit(t, lit_open()) {
        lemma_sp_str_body_rest_len(t1);
        if let Some((name, t2)) = sp_str_body(t1) {
            if let Some(t3) = sp_lit(t2, lit_qty()) {
                lemma_sp_number_rest_len(t3);
                if let Some((q, t4)) = sp_number(t3) {
                    if let Some(t5) = sp_lit(t4, lit_price()) {
                        lemma_sp_number_rest_len(t5);
                        if let Some((pr, t6)) = sp_number(t5) {
                            if let Some(t7) = sp_lit(t6, lit_tax()) {
                                lemma_sp_number_rest_len(t7);
                                if let Some((tx, t8)) = sp_number(t7) {
                                    if let Some(t9) = sp_lit(t8, lit_total()) {
                                        lemma_sp_number_rest_len(t9);
                                        if let Some((tp, t10)) = sp_number(t9) {
                                            if let Some(t11) = sp_lit(t10, seq!['}']) {
                                            }
                                        }
                                    }
                                }
                            }
                        }
                    }
                }
            }
        }
    }
}

// ---------------------------------------------------------------------
// Decimal values of split digit runs
// ---------------------------------------------------------------------

pub proof fn lemma_pow10_pos(n: nat)
    ensures
        pow10(n) >= 1,
    decreases n,
{
    if n > 0 {
        lemma_pow10_pos((n - 1) as nat);
    }
}

pub proof fn lemma_digits_val_append(a: Seq<char>, b: Seq<char>)
    ensures
        digits_val(a + b) == digits_val(a) * pow10(b.len()) + digits_val(b),
    decreases b.len(),
{
    if b.len() == 0 {
        assert(a + b =~= a);
        assert(digits_val(a) * 1 == digits_val(a)) by (nonlinear_arith);
    } else {
        lemma_digits_val_append(a, b.drop_last());
        assert((a + b).drop_last() =~= a + b.drop_last());
        assert((a + b).last() == b.last());
        let x = digits_val(a);
        let p = pow10((b.len() - 1) as nat);
        assert((x * p + digits_val(b.drop_last())) * 10 + digit_val(b.last()) == x * (10 * p) + (
        digits_val(b.drop_last()) * 10 + digit_val(b.last()))) by (nonlinear_arith);
        assert(pow10(b.len()) == 10 * p);
    }
}

// ---------------------------------------------------------------------
// Round trip: parsing inverts encoding
// ---------------------------------------------------------------------

proof fn lemma_lit_round_trip(lit: Seq<char>, rest: Seq<char>)
    ensures
        sp_lit(lit + rest, lit) == Some(rest),
{
    let t = lit + rest;
    assert(t.take(lit.len() as int) =~= lit);
    assert(t.skip(lit.len() as int) =~= rest);
}

proof fn lemma_enc_u_digits(n: nat)
    ensures
        all_digits(enc_u(n)),
        enc_u(n).len() >= 1,
    decreases n,
{
    if n < 10 {
    } else {
        lemma_enc_u_digits(n / 10);
        assert forall|i: int| 0 <= i < enc_u(n).len() implies is_digit(enc_u(n)[i]) by {
            if i < enc_u(n / 10).len() {
                assert(enc_u(n)[i] == enc_u(n / 10)[i]);
            }
        }
    }
}

proof fn lemma_enc_u_val(n: nat)
    ensures
        digits_val(enc_u(n)) == n,
    decreases n,
{
    if n < 10 {
        assert(enc_u(n).drop_last() =~= Seq::<char>::empty());
        assert(enc_u(n).last() == digit_char(n));
        assert(digit_val(digit_char(n)) == n);
        assert(digits_val(Seq::<char>::empty()) == 0);
        assert(digits_val(enc_u(n)) == digits_val(enc_u(n).drop_last()) * 10 + digit_val(
            enc_u(n).last(),
        ));
    } else {
        lemma_enc_u_val(n / 10);
        assert(enc_u(n).drop_last() =~= enc_u(n / 10));
        assert(enc_u(n).last() == digit_char(n % 10));
        assert(digit_val(digit_char(n % 10)) == n % 10);
        assert(digits_val(enc_u(n)) == (n / 10) * 10 + n % 10);
        assert((n / 10) * 10 + n % 10 == n) by (nonlinear_arith);
    }
}

pub proof fn lemma_digit_count_run(d: Seq<char>, rest: Seq<char>)
    requires
        all_digits(d),
        rest.len() == 0 || !is_digit(rest[0]),
    ensures
        digit_count(d + rest) == d.len(),
    decreases d.len(),
{
    if d.len() == 0 {
        assert(d + rest =~= rest);
    } else {
        assert((d + rest).drop_first() =~= d.drop_first() + rest);
        assert(is_digit(d[0]));
        lemma_digit_count_run(d.drop_first(), rest);
    }
}

proof fn lemma_number_round_trip(n: nat, rest: Seq<char>)
    requires
        n <= u64::MAX,
        rest.len() == 0 || !is_digit(rest[0]),
    ensures
        sp_number(enc_u(n) + rest) == Some((n, rest)),
{
    let t = enc_u(n) + rest;
    lemma_enc_u_digits(n);
    lemma_enc_u_val(n);
    lemma_digit_count_run(enc_u(n), rest);
    let k = digit_count(t) as int;
    assert(t.take(k) =~= enc_u(n));
    assert(t.skip(k) =~= rest);
}

proof fn lemma_str_body_round_trip(s: Seq<char>, rest: Seq<char>)
    ensures
        sp_str_body(enc_str(s) + seq!['"'] + rest) == Some((s, rest)),
    decreases s.len(),
{
    let t = enc_str(s) + seq!['"'] + rest;
    if s.len() == 0 {
        assert(t =~= seq!['"'] + rest);
        assert(t[0] == '"');
        assert(t.drop_first() =~= rest);
        assert(s =~= Seq::<char>::empty());
    } else {
        let c = s[0];
        lemma_str_body_round_trip(s.drop_first(), rest);
        if c == '"' || c == '\\' {
            assert(t =~= seq!['\\', c] + (enc_str(s.drop_first()) + seq!['"'] + rest));
            assert(t[0] == '\\');
            assert(t[1] == c);
            assert(t.len() >= 2);
            assert(t.skip(2) =~= enc_str(s.drop_first()) + seq!['"'] + rest);
            assert(seq![t[1]] + s.drop_first() =~= s);
        } else {
            assert(t =~= seq![c] + (enc_str(s.drop_first()) + seq!['"'] + rest));
            assert(t[0] == c);
            assert(t.drop_first() =~= enc_str(s.drop_first()) + seq!['"'] + rest);
            assert(seq![t[0]] + s.drop_first() =~= s);
        }
    }
}

#[verifier::rlimit(100)]
#[verifier::spinoff_prover]
proof fn lemma_product_round_trip(p: ProductModel, rest: Seq<char>)
    requires
        wf_model(p),
    ensures
        sp_product(enc_product(p) + rest) == Some((p, rest)),
{
    let t = enc_product(p) + rest;

    let r11 = rest;
    let r10 = seq!['}'] + r11;
    let r9 = enc_u(p.total_price) + r10;
    let r8 = lit_total() + r9;
    let r7 = enc_u(p.sales_tax) + r8;
    let r6 = lit_tax() + r7;
    let r5 = enc_u(p.price_per_unit) + r6;
    let r4 = lit_price() + r5;
    let r3 = enc_u(p.quantity) + r4;
    let r2 = lit_qty() + r3;
    let r1 = enc_str(p.name) + seq!['"'] + r2;

    assert(t =~= lit_open() + r1);
    lemma_lit_round_trip(lit_open(), r1);
    assert(sp_lit(t, lit_open()) == Some(r1));

    lemma_str_body_round_trip(p.name, r2);
    assert(r1 =~= enc_str(p.name) + seq!['"'] + r2);
    assert(sp_str_body(r1) == Some((p.name, r2)));

    lemma_lit_round_trip(lit_qty(), r3);
    assert(r2 =~= lit_qty() + r3);

    assert(p.quantity <= u64::MAX);
    assert(r4[0] == ',');
    lemma_number_round_trip(p.quantity, r4);
    assert(r3 =~= enc_u(p.quantity) + r4);

    lemma_lit_round_trip(lit_price(), r5);
    assert(r4 =~= lit_price() + r5);

    assert(r6[0] == ',');
    lemma_number_round_trip(p.price_per_unit, r6);
    assert(r5 =~= enc_u(p.price_per_unit) + r6);

    lemma_lit_round_trip(lit_tax(), r7);
    assert(r6 =~= lit_tax() + r7);

    assert(r8[0] == ',');
    lemma_number_round_trip(p.sales_tax, r8);
    assert(r7 =~= enc_u(p.sales_tax) + r8);

    lemma_lit_round_trip(lit_total(), r9);
    assert(r8 =~= lit_total() + r9);

    assert(r10[0] == '}');
    assert(!is_digit('}'));
    lemma_number_round_trip(p.total_price, r10);
    assert(r9 =~= enc_u(p.total_price) + r10);

    lemma_lit_round_trip(seq!['}'], r11);
    assert(r10 =~= seq!['}'] + r11);

    let m = ProductModel {
        name: p.name,
        quantity: p.quantity,
        price_per_unit: p.price_per_unit,
        sales_tax: p.sales_tax,
        total_price: p.total_price,
    };
    assert(m =~= p);
}

#[verifier::rlimit(100)]
proof fn lemma_items_round_trip(s: Seq<ProductModel>, rest: Seq<char>)
    requires
        s.len() >= 1,
        forall|i: int| 0 <= i < s.len() ==> wf_model(#[trigger] s[i]),
        rest.len() == 0 || rest[0] != ',',
    ensures
        sp_items(enc_items(s) + rest) == Some((s, rest)),
    decreases s.len(),
{
    let t = enc_items(s) + rest;
    if s.len() == 1 {
        lemma_product_round_trip(s[0], rest);
        assert(t =~= enc_product(s[0]) + rest);
        assert(seq![s[0]] =~= s);
    } else {
        let tail = s.drop_first();
        let mid = seq![','] + (enc_items(tail) + rest);
        lemma_product_round_trip(s[0], mid);
        assert(t =~= enc_product(s[0]) + mid);
        assert(sp_product(t) == Some((s[0], mid)));
        assert(mid[0] == ',');
        assert(mid.drop_first() =~= enc_items(tail) + rest);
        lemma_items_round_trip(tail, rest);
        assert(seq![s[0]] + tail =~= s);
    }
}

/// The saved document of any inventory parses back to that inventory,
/// record for record and field for field.
pub proof fn lemma_round_trip(s: Seq<ProductModel>)
    requires
        forall|i: int| 0 <= i < s.len() ==> wf_model(#[trigger] s[i]),
    ensures
        sp_inventory(enc_inventory(s)) == Some(s),
{
    let t = enc_inventory(s);
    let t1 = enc_items(s) + seq![']'];
    assert(t =~= seq!['['] + t1);
    lemma_lit_round_trip(seq!['['], t1);
    if s.len() == 0 {
        assert(t1 =~= seq![']']);
        assert(s =~= Seq::<ProductModel>::empty());
    } else {
        assert(enc_product(s[0]).len() >= lit_open().len());
        assert(enc_items(s).len() >= 1);
        assert(t1.len() >= 2);
        assert(t1 != seq![']']);
        lemma_items_round_trip(s, seq![']']);
        assert(t1 =~= enc_items(s) + seq![']']);
    }
}

/// Every product list held in executable code has well-formed models:
/// the field bounds come with the field types.
pub proof fn lemma_deep_view_wf(products: Vec<Product>)
    ensures
        forall|i: int|
            0 <= i < products.deep_view().len() ==> wf_model(#[trigger] products.deep_view()[i]),
{
    assert forall|i: int| 0 <= i < products.deep_view().len() implies wf_model(
        #[trigger] products.deep_view()[i],
    ) by {
        assert(products.deep_view()[i] == products@[i]@);
    }
}

/// Loading immediately after saving returns the saved inventory: the
/// fail-open reading of a written document is the identity.
pub proof fn lemma_save_then_load(s: Seq<ProductModel>)
    requires
        forall|i: int| 0 <= i < s.len() ==> wf_model(#[trigger] s[i]),
    ensures
        fail_open_spec(enc_inventory(s)) == s,
{
    lemma_round_trip(s);
}

/// The round trip stated for every inventory the program can hold: what
/// `save_to_text` writes of a product list, `load_from_text` reads back
/// as the same list, with no proviso.
pub proof fn lemma_store_round_trip(products: Vec<Product>)
    ensures
        fail_open_spec(enc_inventory(products.deep_view())) == products.deep_view(),
{
    lemma_deep_view_wf(products);
    lemma_save_then_load(products.deep_view());
}

} // verus!
