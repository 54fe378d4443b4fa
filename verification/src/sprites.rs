use vstd::prelude::*;

verus! {

/// The character of a decimal digit `d < 10`.
pub open spec fn digit_char(d: nat) -> char {
    (48 + d) as char
}

/// The decimal notation of `n`, most significant digit first, without
/// leading zeros.
pub open spec fn decimal(n: nat) -> Seq<char>
    decreases n,
{
    if n < 10 {
        seq![digit_char(n)]
    } else {
        decimal(n / 10) + seq![digit_char(n % 10)]
    }
}

/// The decimal notation of `n` padded with zeros to at least two digits.
pub open spec fn padded2(n: nat) -> Seq<char> {
    if n < 10 {
        seq!['0', digit_char(n)]
    } else {
        decimal(n)
    }
}

/// The key under which the sprite `index` of the family `name` is stored:
/// the name, an underscore and the index in at least two digits.
pub open spec fn sprite_key_of(name: Seq<char>, index: nat) -> Seq<char> {
    name + seq!['_'] + padded2(index)
}

/// Whether every character of `s` is a decimal digit.
pub open spec fn all_digits(s: Seq<char>) -> bool {
    forall|i: int| 0 <= i < s.len() ==> '0' <= #[trigger] s[i] <= '9'
}

/// The number that the decimal digits `s` spell, most significant first.
pub open spec fn digits_value(s: Seq<char>) -> nat
    decreases s.len(),
{
    if s.len() == 0 {
        0
    } else {
        digits_value(s.drop_last()) * 10 + ((s.last() as nat) - 48) as nat
    }
}

proof fn lemma_digit_char(d: nat)
    requires
        d < 10,
    ensures
        digit_char(d) as nat == 48 + d,
        '0' <= digit_char(d) <= '9',
{
}

/// The decimal notation of `n` consists of digits and spells `n`.
pub proof fn lemma_decimal_spells(n: nat)
    ensures
        all_digits(decimal(n)),
        digits_value(decimal(n)) == n,
        decimal(n).len() >= 1,
    decreases n,
{
    lemma_digit_char(n % 10);
    if n < 10 {
        let s = decimal(n);
        assert(s.drop_last() =~= Seq::<char>::empty());
        assert(digits_value(Seq::<char>::empty()) == 0);
        assert(s.last() == digit_char(n));
        assert(n % 10 == n);
    } else {
        lemma_decimal_spells(n / 10);
        let s = decimal(n);
        assert(s.drop_last() =~= decimal(n / 10));
        assert(s.last() == digit_char(n % 10));
        assert(n == (n / 10) * 10 + n % 10);
    }
}

/// The two-digit padded notation of `n` consists of digits and spells `n`.
pub proof fn lemma_padded2_spells(n: nat)
    ensures
        all_digits(padded2(n)),
        digits_value(padded2(n)) == n,
{
    if n < 10 {
        lemma_digit_char(n);
        let s = padded2(n);
        assert(s.drop_last() =~= seq!['0']);
        assert(seq!['0'].drop_last() =~= Seq::<char>::empty());
        assert(digits_value(Seq::<char>::empty()) == 0);
        lemma_digit_char(0);
        assert(digits_value(seq!['0']) == 0);
    } else {
        lemma_decimal_spells(n);
    }
}

/// Whether `key` names the sprite `index` of the family `name`: the name,
/// an underscore, then decimal digits that spell the index, at least two of
/// them, with a leading zero only where two digits are needed.
pub open spec fn names_sprite(key: Seq<char>, name: Seq<char>, index: nat) -> bool {
    let digits = key.skip(name.len() + 1 as int);
    &&& key.len() > name.len() + 1
    &&& key.take(name.len() as int) == name
    &&& key[name.len() as int] == '_'
    &&& all_digits(digits)
    &&& digits_value(digits) == index
    &&& digits.len() >= 2
    &&& digits.len() > 2 ==> digits[0] != '0'
    &&& index < 100 ==> key.len() == name.len() + 3
}

/// Decimal notation has no leading zero, and a number of ten or more takes
/// at least two digits, a number below a hundred at most two.
proof fn lemma_decimal_shape(n: nat)
    ensures
        n >= 1 ==> decimal(n)[0] != '0',
        n >= 10 ==> decimal(n).len() >= 2,
        n < 100 ==> decimal(n).len() <= 2,
    decreases n,
{
    lemma_digit_char(n % 10);
    if n >= 10 {
        lemma_decimal_shape(n / 10);
        lemma_decimal_spells(n / 10);
        assert(decimal(n)[0] == decimal(n / 10)[0]);
        if n < 100 {
            assert(n / 10 < 10);
        }
    }
}

/// A sprite key names exactly the sprite it was made for: the family, an
/// underscore and the index in at least two digits without other leading
/// zeros.
pub proof fn lemma_sprite_key_names_sprite(name: Seq<char>, index: nat)
    ensures
        names_sprite(sprite_key_of(name, index), name, index),
{
    let key = sprite_key_of(name, index);
    lemma_padded2_spells(index);
    assert(key.skip(name.len() + 1 as int) =~= padded2(index));
    assert(key.take(name.len() as int) =~= name);
    if index >= 10 {
        lemma_decimal_shape(index);
    }
}

/// Two sprites share a key only if they are the same sprite: the key of a
/// family and an index determines both.
pub proof fn lemma_sprite_key_injective(name1: Seq<char>, index1: nat, name2: Seq<char>, index2: nat)
    requires
        sprite_key_of(name1, index1) == sprite_key_of(name2, index2),
    ensures
        name1 == name2,
        index1 == index2,
{
    let k = sprite_key_of(name1, index1);
    let p1 = padded2(index1);
    let p2 = padded2(index2);
    lemma_padded2_spells(index1);
    lemma_padded2_spells(index2);
    let l1 = name1.len() as int;
    let l2 = name2.len() as int;
    let k2 = sprite_key_of(name2, index2);
    assert(k.len() == l1 + 1 + p1.len());
    assert(k2.len() == l2 + 1 + p2.len());
    assert(k[l1] == '_');
    assert(k2[l2] == '_');
    if l1 < l2 {
        assert(k[l2] == p1[l2 - l1 - 1]);
        assert('0' <= p1[l2 - l1 - 1] <= '9');
    }
    if l2 < l1 {
        assert(k[l1] == p2[l1 - l2 - 1]);
        assert('0' <= p2[l1 - l2 - 1] <= '9');
    }
    assert(l1 == l2);
    assert(name1 =~= k.subrange(0, l1));
    assert(name2 =~= k.subrange(0, l2));
    assert(p1 =~= k.subrange(l1 + 1, k.len() as int));
    assert(p2 =~= k.subrange(l2 + 1, k.len() as int));
}

/// The one-character string of the digit `d`.
fn digit_str(d: u32) -> (s: &'static str)
    requires
        d < 10,
    ensures
        s@ == seq![digit_char(d as nat)],
{
    proof {
        reveal_strlit("0");
        reveal_strlit("1");
        reveal_strlit("2");
        reveal_strlit("3");
        reveal_strlit("4");
        reveal_strlit("5");
        reveal_strlit("6");
        reveal_strlit("7");
        reveal_strlit("8");
        reveal_strlit("9");
    }
    if d == 0 {
        "0"
    } else if d == 1 {
        "1"
    } else if d == 2 {
        "2"
    } else if d == 3 {
        "3"
    } else if d == 4 {
        "4"
    } else if d == 5 {
        "5"
    } else if d == 6 {
        "6"
    } else if d == 7 {
        "7"
    } else if d == 8 {
        "8"
    } else {
        "9"
    }
}

/// Appends the decimal notation of `n` to `s`.
fn push_decimal(s: &mut String, n: u32)
    ensures
        final(s)@ == old(s)@ + decimal(n as nat),
    decreases n,
{
    if n >= 10 {
        push_decimal(s, n / 10);
    }
    let d = digit_str(n % 10);
    s.append(d);
    proof {
        if n < 10 {
            assert(n % 10 == n);
        }
    }
}

/// The key `"{name}_{index:02}"` of a sprite.
pub fn sprite_key(name: &str, index: u32) -> (key: String)
    ensures
        key@ == sprite_key_of(name@, index as nat),
        names_sprite(key@, name@, index as nat),
{
    let mut key = String::from_str(name);
    key.append("_");
    if index < 10 {
        key.append("0");
    }
    push_decimal(&mut key, index);
    proof {
        reveal_strlit("_");
        reveal_strlit("0");
        lemma_sprite_key_names_sprite(name@, index as nat);
        assert(key@ == sprite_key_of(name@, index as nat));
        assert(names_sprite(key@, name@, index as nat));
    }
    key
}

} // verus!
