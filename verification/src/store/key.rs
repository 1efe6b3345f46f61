//! One string for two: the code under which the indexed store files a key.
//!
//! The code of a holder and a token is the holder's length in decimal, a
//! colon, the holder and the token. The length in front tells where the
//! holder ends, so two different keys never share a code.

use vstd::prelude::*;
use vstd::string::StringExecFns;
use vstd::string::StrSliceExecFns;

verus! {

/// The character of the decimal digit `d`.
pub open spec fn digit(d: int) -> char {
    if d == 0 {
        '0'
    } else if d == 1 {
        '1'
    } else if d == 2 {
        '2'
    } else if d == 3 {
        '3'
    } else if d == 4 {
        '4'
    } else if d == 5 {
        '5'
    } else if d == 6 {
        '6'
    } else if d == 7 {
        '7'
    } else if d == 8 {
        '8'
    } else {
        '9'
    }
}

/// `n` in decimal, without leading zeros.
pub open spec fn decimal(n: nat) -> Seq<char>
    decreases n,
{
    if n < 10 {
        seq![digit(n as int)]
    } else {
        decimal(n / 10).push(digit((n % 10) as int))
    }
}

/// The code of the key made of `holder` and `token`.
pub open spec fn key_code(holder: Seq<char>, token: Seq<char>) -> Seq<char> {
    decimal(holder.len()) + seq![':'] + holder + token
}

/// A decimal numeral is not empty and holds no colon.
proof fn lemma_decimal_shape(n: nat)
    ensures
        decimal(n).len() >= 1,
        forall|i: int| 0 <= i < decimal(n).len() ==> decimal(n)[i] != ':',
    decreases n,
{
    if n >= 10 {
        lemma_decimal_shape(n / 10);
    }
}

/// Different digits have different characters.
proof fn lemma_digit_injective(a: int, b: int)
    requires
        0 <= a < 10,
        0 <= b < 10,
        digit(a) == digit(b),
    ensures
        a == b,
{
}

/// Different numbers have different numerals.
proof fn lemma_decimal_injective(a: nat, b: nat)
    requires
        decimal(a) == decimal(b),
    ensures
        a == b,
    decreases a,
{
    lemma_decimal_shape(a / 10);
    lemma_decimal_shape(b / 10);
    if a < 10 && b < 10 {
        assert(decimal(a)[0] == digit(a as int));
        assert(decimal(b)[0] == digit(b as int));
        lemma_digit_injective(a as int, b as int);
    } else if a >= 10 && b >= 10 {
        let da = decimal(a / 10);
        let db = decimal(b / 10);
        assert(da =~= decimal(a).drop_last());
        assert(db =~= decimal(b).drop_last());
        assert(digit((a % 10) as int) == decimal(a).last());
        assert(digit((b % 10) as int) == decimal(b).last());
        lemma_decimal_injective(a / 10, b / 10);
        lemma_digit_injective((a % 10) as int, (b % 10) as int);
    } else {
        assert(decimal(a).len() == decimal(b).len());
    }
}

/// Equal codes come from equal keys.
pub proof fn lemma_key_code_injective(h1: Seq<char>, t1: Seq<char>, h2: Seq<char>, t2: Seq<char>)
    requires
        key_code(h1, t1) == key_code(h2, t2),
    ensures
        h1 == h2,
        t1 == t2,
{
    let d1 = decimal(h1.len());
    let d2 = decimal(h2.len());
    let c1 = key_code(h1, t1);
    let c2 = key_code(h2, t2);
    lemma_decimal_shape(h1.len());
    lemma_decimal_shape(h2.len());
    assert(c1[d1.len() as int] == ':');
    assert(c2[d2.len() as int] == ':');
    if d1.len() < d2.len() {
        assert(c2[d1.len() as int] == d2[d1.len() as int]);
    }
    if d2.len() < d1.len() {
        assert(c1[d2.len() as int] == d1[d2.len() as int]);
    }
    assert(d1 =~= d2) by {
        assert forall|i: int| 0 <= i < d1.len() implies d1[i] == d2[i] by {
            assert(c1[i] == d1[i]);
            assert(c2[i] == d2[i]);
        }
    }
    lemma_decimal_injective(h1.len(), h2.len());
    let at = d1.len() + 1;
    assert(h1 =~= h2) by {
        assert forall|i: int| 0 <= i < h1.len() implies h1[i] == h2[i] by {
            assert(c1[at + i] == h1[i]);
            assert(c2[at + i] == h2[i]);
        }
    }
    assert(c1.len() == d1.len() + 1 + h1.len() + t1.len());
    assert(c2.len() == d2.len() + 1 + h2.len() + t2.len());
    assert(t1.len() == t2.len());
    assert(t1 =~= t2) by {
        assert forall|i: int| 0 <= i < t1.len() implies t1[i] == t2[i] by {
            assert(c1[at + h1.len() + i] == t1[i]);
            assert(c2[at + h2.len() + i] == t2[i]);
        }
    }
}

/// The numeral of one digit.
fn digit_str(d: usize) -> (r: &'static str)
    requires
        d < 10,
    ensures
        r@ == seq![digit(d as int)],
{
    proof {
        reveal_strlit("0");
        reveal_strlit("1");
        reveal_strlit("2");
        reveal_strlit("3");
        reveal_strlit("4");
        reveal_strlit("5");
        reveal_strlit("6");
        reveal_strlit("7");
        reveal_strlit("8");
        reveal_strlit("9");
    }
    let r = if d == 0 {
        "0"
    } else if d == 1 {
        "1"
    } else if d == 2 {
        "2"
    } else if d == 3 {
        "3"
    } else if d == 4 {
        "4"
    } else if d == 5 {
        "5"
    } else if d == 6 {
        "6"
    } else if d == 7 {
        "7"
    } else if d == 8 {
        "8"
    } else {
        "9"
    };
    assert(r@ =~= seq![digit(d as int)]);
    r
}

/// Appends `n` in decimal to `out`.
fn push_decimal(out: &mut String, n: usize)
    ensures
        final(out)@ == old(out)@ + decimal(n as nat),
    decreases n,
{
    if n >= 10 {
        push_decimal(out, n / 10);
    }
    out.append(digit_str(n % 10));
    assert(out@ =~= old(out)@ + decimal(n as nat));
}

/// Computes the code of a key.
pub fn encode_key(holder: &String, token: &String) -> (r: String)
    ensures
        r@ == key_code(holder@, token@),
{
    let n: usize = holder.as_str().unicode_len();
    let mut out = String::new();
    push_decimal(&mut out, n);
    proof {
        reveal_strlit(":");
    }
    out.append(":");
    out.append(holder.as_str());
    out.append(token.as_str());
    assert(out@ =~= key_code(holder@, token@));
    out
}

} // verus!
