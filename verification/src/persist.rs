//! Writing and reading the persisted inventory document.
//!
//! The encoder emits exactly the document described in `codec`, and the
//! parser accepts exactly that shape, so the round-trip proof there
//! applies to these functions. Loading is fail-open: a document that
//! does not parse yields the empty inventory.

use vstd::prelude::*;

use vstd::string::StrSliceExecFns;

use crate::codec::digit_char;
use crate::codec::digit_count;
use crate::codec::digit_val;
use crate::codec::digits_val;
use crate::codec::enc_inventory;
use crate::codec::enc_items;
use crate::codec::enc_product;
use crate::codec::enc_str;
use crate::codec::enc_u;
use crate::codec::esc_char;
use crate::codec::fail_open_spec;
use crate::codec::is_digit;
use crate::codec::lemma_digit_count_run;
use crate::codec::lemma_digits_val_append;
use crate::codec::lemma_pow10_pos;
use crate::codec::lit_open;
use crate::codec::lit_price;
use crate::codec::lit_qty;
use crate::codec::lit_tax;
use crate::codec::lit_total;
use crate::codec::pow10;
use crate::codec::sp_inventory;
use crate::codec::sp_items;
use crate::codec::sp_lit;
use crate::codec::sp_number;
use crate::codec::sp_product;
use crate::codec::sp_str_body;
use crate::product::Product;
use crate::product::ProductModel;

verus! {

// ---------------------------------------------------------------------
// Characters and strings
// ---------------------------------------------------------------------

/// Relies on `String::push`: it appends exactly the one character.
#[verifier::external_body]
fn push_char(s: &mut String, c: char)
    ensures
        final(s)@ == old(s)@.push(c),
{
    s.push(c);
}

fn chars_to_string(v: &Vec<char>) -> (s: String)
    ensures
        s@ == v@,
{
    let mut s = String::new();
    let mut k: usize = 0;
    while k < v.len()
        invariant
            k <= v.len(),
            s@ == v@.take(k as int),
        decreases v.len() - k,
    {
        push_char(&mut s, v[k]);
        proof {
            assert(v@.take(k as int + 1) =~= v@.take(k as int).push(v@[k as int]));
        }
        k += 1;
    }
    proof {
        assert(v@.take(v.len() as int) =~= v@);
    }
    s
}

pub(crate) fn str_to_chars(s: &str) -> (v: Vec<char>)
    ensures
        v@ == s@,
{
    let n = s.unicode_len();
    let mut v: Vec<char> = Vec::new();
    let mut k: usize = 0;
    while k < n
        invariant
            n == s@.len(),
            k <= n,
            v@ == s@.take(k as int),
        decreases n - k,
    {
        v.push(s.get_char(k));
        proof {
            assert(s@.take(k as int + 1) =~= s@.take(k as int).push(s@[k as int]));
        }
        k += 1;
    }
    proof {
        assert(s@.take(n as int) =~= s@);
    }
    v
}

fn append_vec(out: &mut Vec<char>, piece: &Vec<char>)
    ensures
        final(out)@ == old(out)@ + piece@,
{
    let ghost base = out@;
    let mut k: usize = 0;
    while k < piece.len()
        invariant
            k <= piece.len(),
            out@ == base + piece@.take(k as int),
        decreases piece.len() - k,
    {
        out.push(piece[k]);
        proof {
            assert(base + piece@.take(k as int + 1) =~= (base + piece@.take(k as int)).push(
                piece@[k as int],
            ));
        }
        k += 1;
    }
    proof {
        assert(piece@.take(piece.len() as int) =~= piece@);
    }
}

// ---------------------------------------------------------------------
// The fixed pieces, as runtime values
// ---------------------------------------------------------------------

fn lit_open_vec() -> (v: Vec<char>)
    ensures
        v@ == lit_open(),
{
    let mut v: Vec<char> = Vec::new();
    v.push('{');
    v.push('"');
    v.push('p');
    v.push('r');
    v.push('o');
    v.push('d');
    v.push('u');
    v.push('c');
    v.push('t');
    v.push('_');
    v.push('n');
    v.push('a');
    v.push('m');
    v.push('e');
    v.push('"');
    v.push(':');
    v.push('"');
    proof {
        assert(v@ =~= lit_open());
    }
    v
}

fn lit_qty_vec() -> (v: Vec<char>)
    ensures
        v@ == lit_qty(),
{
    let mut v: Vec<char> = Vec::new();
    v.push(',');
    v.push('"');
    v.push('q');
    v.push('u');
    v.push('a');
    v.push('n');
    v.push('t');
    v.push('i');
    v.push('t');
    v.push('y');
    v.push('"');
    v.push(':');
    proof {
        assert(v@ =~= lit_qty());
    }
    v
}

fn lit_price_vec() -> (v: Vec<char>)
    ensures
        v@ == lit_price(),
{
    let mut v: Vec<char> = Vec::new();
    v.push(',');
    v.push('"');
    v.push('p');
    v.push('r');
    v.push('i');
    v.push('c');
    v.push('e');
    v.push('_');
    v.push('p');
    v.push('e');
    v.push('r');
    v.push('_');
    v.push('u');
    v.push('n');
    v.push('i');
    v.push('t');
    v.push('"');
    v.push(':');
    proof {
        assert(v@ =~= lit_price());
    }
    v
}

fn lit_tax_vec() -> (v: Vec<char>)
    ensures
        v@ == lit_tax(),
{
    let mut v: Vec<char> = Vec::new();
    v.push(',');
    v.push('"');
    v.push('s');
    v.push('a');
    v.push('l');
    v.push('e');
    v.push('s');
    v.push('_');
    v.push('t');
    v.push('a');
    v.push('x');
    v.push('"');
    v.push(':');
    proof {
        assert(v@ =~= lit_tax());
    }
    v
}

fn lit_total_vec() -> (v: Vec<char>)
    ensures
        v@ == lit_total(),
{
    let mut v: Vec<char> = Vec::new();
    v.push(',');
    v.push('"');
    v.push('t');
    v.push('o');
    v.push('t');
    v.push('a');
    v.push('l');
    v.push('_');
    v.push('p');
    v.push('r');
    v.push('i');
    v.push('c');
    v.push('e');
    v.push('"');
    v.push(':');
    proof {
        assert(v@ =~= lit_total());
    }
    v
}

// ---------------------------------------------------------------------
// Encoding
// ---------------------------------------------------------------------

fn push_digit_char(out: &mut Vec<char>, d: u64)
    requires
        d < 10,
    ensures
        final(out)@ == old(out)@.push(digit_char(d as nat)),
{
    if d == 1 {
        out.push('1');
    } else if d == 2 {
        out.push('2');
    } else if d == 3 {
        out.push('3');
    } else if d == 4 {
        out.push('4');
    } else if d == 5 {
        out.push('5');
    } else if d == 6 {
        out.push('6');
    } else if d == 7 {
        out.push('7');
    } else if d == 8 {
        out.push('8');
    } else if d == 9 {
        out.push('9');
    } else {
        out.push('0');
    }
}

fn push_digits(out: &mut Vec<char>, n: u64)
    ensures
        final(out)@ == old(out)@ + enc_u(n as nat),
    decreases n,
{
    if n < 10 {
        push_digit_char(out, n);
        proof {
            assert(out@ =~= old(out)@ + enc_u(n as nat));
        }
    } else {
        push_digits(out, n / 10);
        push_digit_char(out, n % 10);
        proof {
            assert(out@ =~= old(out)@ + enc_u(n as nat));
        }
    }
}

proof fn lemma_enc_str_snoc(s: Seq<char>, c: char)
    ensures
        enc_str(s.push(c)) == enc_str(s) + esc_char(c),
    decreases s.len(),
{
    if s.len() == 0 {
        assert(s.push(c)[0] == c);
        assert(s.push(c).drop_first() =~= Seq::<char>::empty());
        assert(enc_str(Seq::<char>::empty()) =~= Seq::<char>::empty());
        assert(enc_str(s.push(c)) =~= esc_char(c) + Seq::<char>::empty());
        assert(esc_char(c) + Seq::<char>::empty() =~= esc_char(c));
        assert(enc_str(s) + esc_char(c) =~= esc_char(c));
    } else {
        lemma_enc_str_snoc(s.drop_first(), c);
        assert(s.push(c).drop_first() =~= s.drop_first().push(c));
        assert(s.push(c)[0] == s[0]);
        assert(esc_char(s[0]) + (enc_str(s.drop_first()) + esc_char(c)) =~= (esc_char(s[0])
            + enc_str(s.drop_first())) + esc_char(c));
    }
}

fn push_escaped(out: &mut Vec<char>, name: &str)
    ensures
        final(out)@ == old(out)@ + enc_str(name@),
{
    let ghost base = out@;
    let n = name.unicode_len();
    let mut k: usize = 0;
    while k < n
        invariant
            n == name@.len(),
            k <= n,
            out@ == base + enc_str(name@.take(k as int)),
        decreases n - k,
    {
        let c = name.get_char(k);
        if c == '"' || c == '\\' {
            out.push('\\');
            out.push(c);
        } else {
            out.push(c);
        }
        proof {
            lemma_enc_str_snoc(name@.take(k as int), name@[k as int]);
            assert(name@.take(k as int + 1) =~= name@.take(k as int).push(name@[k as int]));
            assert(out@ =~= base + enc_str(name@.take(k as int + 1)));
        }
        k += 1;
    }
    proof {
        assert(name@.take(n as int) =~= name@);
    }
}

#[verifier::rlimit(100)]
fn encode_product_chars(out: &mut Vec<char>, p: &Product)
    ensures
        final(out)@ == old(out)@ + enc_product(p@),
{
    let ghost base = out@;
    let lit = lit_open_vec();
    append_vec(out, &lit);
    push_escaped(out, p.product_name.as_str());
    out.push('"');
    let lit = lit_qty_vec();
    append_vec(out, &lit);
    push_digits(out, p.quantity as u64);
    let lit = lit_price_vec();
    append_vec(out, &lit);
    push_digits(out, p.price_per_unit);
    let lit = lit_tax_vec();
    append_vec(out, &lit);
    push_digits(out, p.sales_tax);
    let lit = lit_total_vec();
    append_vec(out, &lit);
    push_digits(out, p.total_price);
    out.push('}');
    proof {
        assert(out@ =~= base + enc_product(p@));
    }
}

fn encode_items(out: &mut Vec<char>, products: &Vec<Product>, i: usize)
    requires
        i <= products.len(),
    ensures
        final(out)@ == old(out)@ + enc_items(products.deep_view().skip(i as int)),
    decreases products.len() - i,
{
    let ghost base = out@;
    let ghost dv = products.deep_view();
    if i == products.len() {
        proof {
            assert(dv.skip(i as int) =~= Seq::<ProductModel>::empty());
            assert(base + Seq::<char>::empty() =~= base);
        }
    } else {
        encode_product_chars(out, &products[i]);
        proof {
            assert(dv.skip(i as int)[0] == products@[i as int]@);
        }
        if i + 1 == products.len() {
            proof {
                assert(dv.skip(i as int).len() == 1);
            }
        } else {
            out.push(',');
            encode_items(out, products, i + 1);
            proof {
                assert(dv.skip(i as int).drop_first() =~= dv.skip(i as int + 1));
                assert(dv.skip(i as int).len() >= 2);
                assert(out@ =~= base + enc_items(dv.skip(i as int)));
            }
        }
    }
}

/// Writes the whole inventory as one document.
pub fn encode_inventory(products: &Vec<Product>) -> (out: Vec<char>)
    ensures
        out@ == enc_inventory(products.deep_view()),
{
    let mut out: Vec<char> = Vec::new();
    out.push('[');
    encode_items(&mut out, products, 0);
    out.push(']');
    proof {
        assert(products.deep_view().skip(0) =~= products.deep_view());
        assert(out@ =~= enc_inventory(products.deep_view()));
    }
    out
}

/// Writes the whole inventory as one document, as text ready to store.
pub fn save_to_text(products: &Vec<Product>) -> (s: String)
    ensures
        s@ == enc_inventory(products.deep_view()),
{
    let chars = encode_inventory(products);
    chars_to_string(&chars)
}

// ---------------------------------------------------------------------
// Parsing
// ---------------------------------------------------------------------

fn is_digit_exec(c: char) -> (r: bool)
    ensures
        r == is_digit(c),
{
    c == '0' || c == '1' || c == '2' || c == '3' || c == '4' || c == '5' || c == '6' || c == '7'
        || c == '8' || c == '9'
}

fn digit_val_exec(c: char) -> (r: u64)
    ensures
        r == digit_val(c),
        r <= 9,
{
    if c == '1' {
        1
    } else if c == '2' {
        2
    } else if c == '3' {
        3
    } else if c == '4' {
        4
    } else if c == '5' {
        5
    } else if c == '6' {
        6
    } else if c == '7' {
        7
    } else if c == '8' {
        8
    } else if c == '9' {
        9
    } else {
        0
    }
}

fn parse_lit(t: &Vec<char>, i: usize, lit: &Vec<char>) -> (r: Option<usize>)
    requires
        i <= t.len(),
    ensures
        match r {
            Some(j) => i <= j && j <= t.len() && sp_lit(t@.skip(i as int), lit@) == Some(
                t@.skip(j as int),
            ),
            None => sp_lit(t@.skip(i as int), lit@) is None,
        },
{
    if t.len() - i < lit.len() {
        return None;
    }
    let mut k: usize = 0;
    while k < lit.len()
        invariant
            i <= t.len(),
            lit.len() <= t.len() - i,
            k <= lit.len(),
            forall|m: int| 0 <= m < k ==> t@[i + m] == lit@[m],
        decreases lit.len() - k,
    {
        if t[i + k] != lit[k] {
            proof {
                let suf = t@.skip(i as int);
                assert(suf.take(lit@.len() as int)[k as int] == t@[i + k]);
                assert(suf.take(lit@.len() as int) != lit@);
            }
            return None;
        }
        k += 1;
    }
    proof {
        let suf = t@.skip(i as int);
        assert(suf.take(lit@.len() as int) =~= lit@);
        assert(suf.skip(lit@.len() as int) =~= t@.skip(i as int + lit@.len()));
    }
    Some(i + lit.len())
}

#[verifier::rlimit(100)]
pub(crate) fn parse_number(t: &Vec<char>, i: usize) -> (r: Option<(u64, usize)>)
    requires
        i <= t.len(),
    ensures
        match r {
            Some(p) => i < p.1 && p.1 <= t.len() && sp_number(t@.skip(i as int)) == Some(
                (p.0 as nat, t@.skip(p.1 as int)),
            ),
            None => sp_number(t@.skip(i as int)) is None,
        },
{
    let mut j: usize = i;
    while j < t.len() && is_digit_exec(t[j])
        invariant
            i <= j <= t.len(),
            forall|m: int| i <= m < j ==> is_digit(t@[m]),
        decreases t.len() - j,
    {
        j += 1;
    }
    let ghost d = t@.subrange(i as int, j as int);
    proof {
        let rest = t@.skip(j as int);
        assert(t@.skip(i as int) =~= d + rest);
        assert(rest.len() == 0 || !is_digit(rest[0]));
        lemma_digit_count_run(d, rest);
        assert(digit_count(t@.skip(i as int)) == j - i);
        assert(t@.skip(i as int).take((j - i) as int) =~= d);
        assert(t@.skip(i as int).skip((j - i) as int) =~= t@.skip(j as int));
    }
    if j == i {
        return None;
    }
    let mut v: u64 = 0;
    let mut m: usize = i;
    while m < j
        invariant
            i <= m <= j <= t.len(),
            forall|q: int| i <= q < j ==> is_digit(t@[q]),
            d == t@.subrange(i as int, j as int),
            i < j,
            digit_count(t@.skip(i as int)) == j - i,
            v as nat == digits_val(t@.subrange(i as int, m as int)),
        decreases j - m,
    {
        let dval = digit_val_exec(t[m]);
        proof {
            assert(t@.subrange(i as int, m as int + 1).drop_last() =~= t@.subrange(
                i as int,
                m as int,
            ));
            assert(t@.subrange(i as int, m as int + 1).last() == t@[m as int]);
        }
        let v10 = match v.checked_mul(10) {
            Some(x) => x,
            None => {
                proof {
                    lemma_overflow_means_reject(t@, i as int, m as int, j as int);
                }
                return None;
            },
        };
        let v2 = match v10.checked_add(dval) {
            Some(x) => x,
            None => {
                proof {
                    lemma_overflow_means_reject(t@, i as int, m as int, j as int);
                }
                return None;
            },
        };
        v = v2;
        m += 1;
    }
    proof {
        assert(t@.subrange(i as int, j as int) == d);
    }
    Some((v, j))
}

/// If the first `m - i + 1` digits already read past the largest machine
/// word, the whole run does too, so the number is rejected.
proof fn lemma_overflow_means_reject(t: Seq<char>, i: int, m: int, j: int)
    requires
        0 <= i <= m < j <= t.len(),
        forall|q: int| i <= q < j ==> is_digit(t[q]),
        digits_val(t.subrange(i, m + 1)) > u64::MAX,
        digit_count(t.skip(i)) == j - i,
    ensures
        sp_number(t.skip(i)) is None,
{
    let head = t.subrange(i, m + 1);
    let tail = t.subrange(m + 1, j);
    let d = t.subrange(i, j);
    assert(d =~= head + tail);
    lemma_digits_val_append(head, tail);
    lemma_pow10_pos(tail.len());
    assert(digits_val(head) * pow10(tail.len()) >= digits_val(head)) by (nonlinear_arith)
        requires
            pow10(tail.len()) >= 1,
            digits_val(head) >= 0,
    ;
    assert(digits_val(d) > u64::MAX);
    assert(t.skip(i).take(j - i) =~= d);
}

fn parse_str_body(t: &Vec<char>, i: usize) -> (r: Option<(Vec<char>, usize)>)
    requires
        i <= t.len(),
    ensures
        match r {
            Some(p) => i < p.1 && p.1 <= t.len() && sp_str_body(t@.skip(i as int)) == Some(
                (p.0@, t@.skip(p.1 as int)),
            ),
            None => sp_str_body(t@.skip(i as int)) is None,
        },
    decreases t.len() - i,
{
    if i == t.len() {
        return None;
    }
    let c = t[i];
    proof {
        assert(t@.skip(i as int)[0] == t@[i as int]);
    }
    if c == '"' {
        proof {
            assert(t@.skip(i as int).drop_first() =~= t@.skip(i as int + 1));
        }
        let empty: Vec<char> = Vec::new();
        return Some((empty, i + 1));
    }
    if c == '\\' {
        if t.len() - i >= 2 && (t[i + 1] == '"' || t[i + 1] == '\\') {
            proof {
                assert(t@.skip(i as int)[1] == t@[i as int + 1]);
                assert(t@.skip(i as int).skip(2) =~= t@.skip(i as int + 2));
            }
            let e = t[i + 1];
            match parse_str_body(t, i + 2) {
                Some((s, j)) => {
                    let ghost s0 = s@;
                    let mut s = s;
                    s.insert(0, e);
                    proof {
                        assert(s@ =~= seq![e] + s0);
                    }
                    Some((s, j))
                },
                None => None,
            }
        } else {
            proof {
                if t.len() - i >= 2 {
                    assert(t@.skip(i as int)[1] == t@[i as int + 1]);
                }
            }
            None
        }
    } else {
        match parse_str_body(t, i + 1) {
            Some((s, j)) => {
                proof {
                    assert(t@.skip(i as int).drop_first() =~= t@.skip(i as int + 1));
                }
                let ghost s0 = s@;
                let mut s = s;
                s.insert(0, c);
                proof {
                    assert(s@ =~= seq![c] + s0);
                }
                Some((s, j))
            },
            None => {
                proof {
                    assert(t@.skip(i as int).drop_first() =~= t@.skip(i as int + 1));
                }
                None
            },
        }
    }
}

#[verifier::rlimit(100)]
fn parse_product(t: &Vec<char>, i: usize) -> (r: Option<(Product, usize)>)
    requires
        i <= t.len(),
    ensures
        match r {
            Some(p) => i < p.1 && p.1 <= t.len() && sp_product(t@.skip(i as int)) == Some(
                (p.0@, t@.skip(p.1 as int)),
            ),
            None => sp_product(t@.skip(i as int)) is None,
        },
{
    let lit = lit_open_vec();
    let i1 = match parse_lit(t, i, &lit) {
        Some(j) => j,
        None => {
            return None;
        },
    };
    let (name_chars, i2) = match parse_str_body(t, i1) {
        Some(p) => p,
        None => {
            return None;
        },
    };
    let lit = lit_qty_vec();
    let i3 = match parse_lit(t, i2, &lit) {
        Some(j) => j,
        None => {
            return None;
        },
    };
    let (q, i4) = match parse_number(t, i3) {
        Some(p) => p,
        None => {
            return None;
        },
    };
    if q > usize::MAX as u64 {
        return None;
    }
    let lit = lit_price_vec();
    let i5 = match parse_lit(t, i4, &lit) {
        Some(j) => j,
        None => {
            return None;
        },
    };
    let (price, i6) = match parse_number(t, i5) {
        Some(p) => p,
        None => {
            return None;
        },
    };
    let lit = lit_tax_vec();
    let i7 = match parse_lit(t, i6, &lit) {
        Some(j) => j,
        None => {
            return None;
        },
    };
    let (tax, i8) = match parse_number(t, i7) {
        Some(p) => p,
        None => {
            return None;
        },
    };
    let lit = lit_total_vec();
    let i9 = match parse_lit(t, i8, &lit) {
        Some(j) => j,
        None => {
            return None;
        },
    };
    let (total, i10) = match parse_number(t, i9) {
        Some(p) => p,
        None => {
            return None;
        },
    };
    let mut close: Vec<char> = Vec::new();
    close.push('}');
    proof {
        assert(close@ =~= seq!['}']);
    }
    let i11 = match parse_lit(t, i10, &close) {
        Some(j) => j,
        None => {
            return None;
        },
    };
    let product = Product {
        product_name: chars_to_string(&name_chars),
        quantity: q as usize,
        price_per_unit: price,
        sales_tax: tax,
        total_price: total,
    };
    proof {
        let expect = sp_product(t@.skip(i as int))->Some_0;
        assert(product@ =~= expect.0);
    }
    Some((product, i11))
}

fn parse_items(t: &Vec<char>, i: usize) -> (r: Option<(Vec<Product>, usize)>)
    requires
        i <= t.len(),
    ensures
        match r {
            Some(p) => i < p.1 && p.1 <= t.len() && sp_items(t@.skip(i as int)) == Some(
                (p.0.deep_view(), t@.skip(p.1 as int)),
            ),
            None => sp_items(t@.skip(i as int)) is None,
        },
    decreases t.len() - i,
{
    let (p, j) = match parse_product(t, i) {
        Some(x) => x,
        None => {
            return None;
        },
    };
    if j < t.len() && t[j] == ',' {
        proof {
            assert(t@.skip(j as int)[0] == t@[j as int]);
            assert(t@.skip(j as int).drop_first() =~= t@.skip(j as int + 1));
        }
        match parse_items(t, j + 1) {
            Some((ps, k2)) => {
                let ghost dv0 = ps.deep_view();
                let mut ps = ps;
                ps.insert(0, p);
                proof {
                    assert forall|m: int| 0 <= m < ps.deep_view().len() implies ps.deep_view()[m]
                        == (seq![p@] + dv0)[m] by {
                        if m > 0 {
                            assert(ps@[m] == ps@.subrange(1, ps@.len() as int)[m - 1]);
                        }
                    }
                    assert(ps.deep_view() =~= seq![p@] + dv0);
                }
                Some((ps, k2))
            },
            None => None,
        }
    } else {
        proof {
            if j < t.len() {
                assert(t@.skip(j as int)[0] == t@[j as int]);
            }
        }
        let mut ps: Vec<Product> = Vec::new();
        ps.push(p);
        proof {
            assert(ps.deep_view() =~= seq![p@]);
        }
        Some((ps, j))
    }
}

/// Reads a whole document back into an inventory, accepting exactly the
/// documents the encoder writes.
pub fn parse_inventory(t: &Vec<char>) -> (r: Option<Vec<Product>>)
    ensures
        match r {
            Some(v) => sp_inventory(t@) == Some(v.deep_view()),
            None => sp_inventory(t@) is None,
        },
{
    let mut open: Vec<char> = Vec::new();
    open.push('[');
    proof {
        assert(open@ =~= seq!['[']);
        assert(t@.skip(0) =~= t@);
    }
    let i1 = match parse_lit(t, 0, &open) {
        Some(j) => j,
        None => {
            return None;
        },
    };
    if t.len() - i1 == 1 && t[i1] == ']' {
        proof {
            assert(t@.skip(i1 as int) =~= seq![']']);
        }
        let empty: Vec<Product> = Vec::new();
        proof {
            assert(empty.deep_view() =~= Seq::<ProductModel>::empty());
        }
        return Some(empty);
    }
    proof {
        let t1 = t@.skip(i1 as int);
        if t1 == seq![']'] {
            assert(t1.len() == 1);
            assert(t1[0] == ']');
            assert(false);
        }
    }
    let (ps, j) = match parse_items(t, i1) {
        Some(x) => x,
        None => {
            return None;
        },
    };
    if t.len() - j == 1 && t[j] == ']' {
        proof {
            assert(t@.skip(j as int) =~= seq![']']);
        }
        Some(ps)
    } else {
        proof {
            let t2 = t@.skip(j as int);
            if t2 == seq![']'] {
                assert(t2.len() == 1);
                assert(t2[0] == ']');
                assert(false);
            }
        }
        None
    }
}

/// Loads an inventory from stored text, fail-open: where there was no
/// readable text at all, or the text does not parse, the inventory is
/// empty.
pub fn load_from_text(text: Option<&str>) -> (r: Vec<Product>)
    ensures
        match text {
            None => r.deep_view() == Seq::<ProductModel>::empty(),
            Some(s) => r.deep_view() == fail_open_spec(s@),
        },
{
    match text {
        None => {
            let empty: Vec<Product> = Vec::new();
            proof {
                assert(empty.deep_view() =~= Seq::<ProductModel>::empty());
            }
            empty
        },
        Some(s) => {
            let chars = str_to_chars(s);
            match parse_inventory(&chars) {
                Some(v) => v,
                None => {
                    let empty: Vec<Product> = Vec::new();
                    proof {
                        assert(empty.deep_view() =~= Seq::<ProductModel>::empty());
                    }
                    empty
                },
            }
        },
    }
}

} // verus!
