//! Numbered names: each number gives another note key, so a free one is always found.
use crate::paths::{flat_char, flat_name, note_key, MAX_KEY_BYTES};
use crate::plan::{first_free, is_first_free, number_base, number_suffix, numbered, MAX_BASE_BYTES};
use crate::text::{
    byte_len, decimal, fit, lemma_byte_len_add, lemma_byte_len_push, lemma_decimal_digits,
    lemma_decimal_injective, lemma_fit, lemma_machine_number_len, lemma_trim_end, trim_end,
    utf8_width,
};
use vstd::prelude::*;

verus! {

/// A key has as many bytes as the name it was made from, unless it was cut.
pub proof fn lemma_flat_name_bytes(name: Seq<char>)
    requires
        name.len() > 0,
    ensures
        byte_len(flat_name(name)) == byte_len(name),
        flat_name(name).len() == name.len(),
{
    let flat = name.map_values(|c: char| flat_char(c));
    lemma_flat_bytes(name);
    if name[0] == '.' {
        assert(flat.update(0, '-') =~= seq!['-'] + flat.skip(1));
        assert(flat =~= seq!['.'] + flat.skip(1));
        lemma_byte_len_add(seq!['-'], flat.skip(1));
        lemma_byte_len_add(seq!['.'], flat.skip(1));
        lemma_byte_len_push(Seq::empty(), '-');
        lemma_byte_len_push(Seq::empty(), '.');
        assert(Seq::<char>::empty().push('-') =~= seq!['-']);
        assert(Seq::<char>::empty().push('.') =~= seq!['.']);
    }
}

proof fn lemma_flat_bytes(name: Seq<char>)
    ensures
        byte_len(name.map_values(|c: char| flat_char(c))) == byte_len(name),
    decreases name.len(),
{
    let flat = name.map_values(|c: char| flat_char(c));
    if name.len() > 0 {
        let shorter = name.drop_last();
        lemma_flat_bytes(shorter);
        assert(name =~= shorter.push(name.last()));
        assert(flat =~= shorter.map_values(|c: char| flat_char(c)).push(flat_char(name.last())));
        lemma_byte_len_push(shorter, name.last());
        lemma_byte_len_push(
            shorter.map_values(|c: char| flat_char(c)),
            flat_char(name.last()),
        );
        assert(utf8_width(flat_char(name.last())) == utf8_width(name.last()));
    } else {
        assert(flat =~= name);
    }
}

/// What the key of a numbered name begins with.
pub open spec fn key_base(base: Seq<char>) -> Seq<char> {
    if base.len() == 0 {
        base
    } else {
        flat_name(base)
    }
}

/// The base that is kept in front of a number is short.
pub proof fn lemma_number_base(clean: Seq<char>)
    ensures
        byte_len(number_base(clean)) <= MAX_BASE_BYTES,
        number_base(clean).len() <= clean.len(),
        number_base(clean) == clean.take(number_base(clean).len() as int),
{
    let cut = fit(clean, MAX_BASE_BYTES as nat);
    lemma_fit(clean, MAX_BASE_BYTES as nat);
    lemma_trim_end(cut);
    let base = trim_end(cut);
    let rest = cut.skip(base.len() as int);
    assert(cut =~= base + rest);
    lemma_byte_len_add(base, rest);
    assert(base =~= clean.take(base.len() as int));
}

proof fn lemma_number_suffix(n: nat)
    requires
        n <= u128::MAX,
    ensures
        number_suffix(n).len() == decimal(n).len() + 3,
        byte_len(number_suffix(n)) == decimal(n).len() + 3,
        decimal(n).len() <= 39,
        forall|i: int|
            0 <= i < number_suffix(n).len() ==> flat_char(#[trigger] number_suffix(n)[i])
                == number_suffix(n)[i],
{
    lemma_decimal_digits(n);
    lemma_machine_number_len(n);
    let open = seq![' ', '('];
    lemma_byte_len_add(open + decimal(n), seq![')']);
    lemma_byte_len_add(open, decimal(n));
    assert(open =~= Seq::<char>::empty().push(' ').push('('));
    lemma_byte_len_push(Seq::empty(), ' ');
    lemma_byte_len_push(Seq::empty().push(' '), '(');
    assert(seq![')'] =~= Seq::<char>::empty().push(')'));
    lemma_byte_len_push(Seq::empty(), ')');
    assert forall|i: int| 0 <= i < number_suffix(n).len() implies flat_char(
        #[trigger] number_suffix(n)[i],
    ) == number_suffix(n)[i] by {
        if 2 <= i < decimal(n).len() + 2 {
            assert(number_suffix(n)[i] == decimal(n)[i - 2]);
        }
    }
}

/// The key of a numbered name is the key of its base with the number behind it: the number is
/// never cut off.
pub proof fn lemma_key_of_numbered(base: Seq<char>, n: nat)
    requires
        byte_len(base) <= MAX_BASE_BYTES,
        n <= u128::MAX,
    ensures
        note_key(numbered(base, n)) == key_base(base) + number_suffix(n),
        byte_len(numbered(base, n)) <= MAX_BASE_BYTES + 42,
{
    let name = numbered(base, n);
    let suffix = number_suffix(n);
    lemma_number_suffix(n);
    lemma_byte_len_add(base, suffix);
    assert(byte_len(name) <= MAX_KEY_BYTES);
    assert(flat_name(name) =~= key_base(base) + suffix) by {
        let flat = name.map_values(|c: char| flat_char(c));
        assert forall|i: int| base.len() <= i < name.len() implies flat[i] == suffix[i
            - base.len()] by {
            assert(name[i] == suffix[i - base.len()]);
        }
        if base.len() > 0 {
            assert(name[0] == base[0]);
        } else {
            assert(name[0] == ' ');
        }
    }
    lemma_flat_name_bytes(name);
    lemma_fit(flat_name(name), MAX_KEY_BYTES as nat);
}

/// Different numbers behind the same base give different keys.
pub proof fn lemma_numbers_give_different_keys(base: Seq<char>, m: nat, n: nat)
    requires
        byte_len(base) <= MAX_BASE_BYTES,
        m <= u128::MAX,
        n <= u128::MAX,
        note_key(numbered(base, m)) == note_key(numbered(base, n)),
    ensures
        m == n,
{
    lemma_key_of_numbered(base, m);
    lemma_key_of_numbered(base, n);
    let a = note_key(numbered(base, m));
    let k = key_base(base).len() as int;
    assert(a.skip(k) =~= number_suffix(m));
    assert(a.skip(k) =~= number_suffix(n));
    let s = number_suffix(m);
    assert(s.subrange(2, s.len() - 1) =~= decimal(m));
    assert(s.subrange(2, s.len() - 1) =~= decimal(n));
    lemma_decimal_injective(m, n);
}

/// As many numbers as there are reserved keys can be taken, and no more.
pub proof fn lemma_taken_numbers(base: Seq<char>, reserved: Set<Seq<char>>, n: nat)
    requires
        byte_len(base) <= MAX_BASE_BYTES,
        reserved.finite(),
        2 <= n <= u128::MAX,
        forall|m: nat| 2 <= m < n ==> reserved.contains(note_key(#[trigger] numbered(base, m))),
    ensures
        n - 2 <= reserved.len(),
    decreases n,
{
    if n > 2 {
        let last = (n - 1) as nat;
        let key = note_key(numbered(base, last));
        let fewer = reserved.remove(key);
        assert forall|m: nat| 2 <= m < last implies fewer.contains(
            note_key(#[trigger] numbered(base, m)),
        ) by {
            if note_key(numbered(base, m)) == key {
                lemma_numbers_give_different_keys(base, m, last);
            }
        }
        lemma_taken_numbers(base, fewer, last);
        assert(reserved.contains(key));
    }
}

/// There is a lowest free number, and only one.
pub proof fn lemma_first_free(base: Seq<char>, reserved: Set<Seq<char>>)
    requires
        byte_len(base) <= MAX_BASE_BYTES,
        reserved.finite(),
        reserved.len() + 3 <= u128::MAX,
    ensures
        is_first_free(base, reserved, first_free(base, reserved)),
        first_free(base, reserved) <= reserved.len() + 2,
{
    let limit = (reserved.len() + 3) as nat;
    if forall|m: nat| 2 <= m < limit ==> reserved.contains(note_key(#[trigger] numbered(base, m)))
    {
        lemma_taken_numbers(base, reserved, limit);
    } else {
        let m = choose|m: nat|
            2 <= m < limit && !reserved.contains(note_key(#[trigger] numbered(base, m)));
        lemma_lowest_free(base, reserved, m);
        let n = first_free(base, reserved);
        if n > m {
            assert(reserved.contains(note_key(numbered(base, m))));
        }
    }
}

proof fn lemma_lowest_free(base: Seq<char>, reserved: Set<Seq<char>>, m: nat)
    requires
        m >= 2,
        !reserved.contains(note_key(numbered(base, m))),
    ensures
        exists|n: nat| is_first_free(base, reserved, n),
    decreases m,
{
    if is_first_free(base, reserved, m) {
    } else {
        let k = choose|k: nat|
            2 <= k < m && !reserved.contains(note_key(#[trigger] numbered(base, k)));
        lemma_lowest_free(base, reserved, k);
    }
}

/// A number that is lowest free is the one that is chosen.
pub proof fn lemma_first_free_is(base: Seq<char>, reserved: Set<Seq<char>>, n: nat)
    requires
        is_first_free(base, reserved, n),
    ensures
        first_free(base, reserved) == n,
{
    let k = first_free(base, reserved);
    assert(is_first_free(base, reserved, k));
    if k < n {
        assert(reserved.contains(note_key(numbered(base, k))));
    } else if n < k {
        assert(reserved.contains(note_key(numbered(base, n))));
    }
}

} // verus!
