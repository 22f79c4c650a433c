use vstd::prelude::*;

verus! {

/// The value listed for `key` in a table of `(symbol, value)` pairs; where a
/// symbol is listed more than once, its first listing counts.
pub open spec fn lookup<V>(table: Seq<(char, V)>, key: char) -> Option<V>
    decreases table.len(),
{
    if table.len() == 0 {
        None
    } else if table[0].0 == key {
        Some(table[0].1)
    } else {
        lookup(table.drop_first(), key)
    }
}

/// A value that `lookup` finds is one of the table's values.
pub proof fn lemma_lookup_listed<V>(table: Seq<(char, V)>, key: char)
    requires
        lookup(table, key) is Some,
    ensures
        exists|i: int| 0 <= i < table.len() && table[i].1 == lookup(table, key)->Some_0,
    decreases table.len(),
{
    if table[0].0 != key {
        lemma_lookup_listed(table.drop_first(), key);
        let i = choose|i: int|
            0 <= i < table.drop_first().len() && table.drop_first()[i].1 == lookup(
                table.drop_first(),
                key,
            )->Some_0;
        assert(table[i + 1].1 == lookup(table, key)->Some_0);
    }
}

/// The position of the first listing of `key`.
pub fn find_key<V>(table: &Vec<(char, V)>, key: char) -> (r: Option<usize>)
    ensures
        match r {
            Some(i) => i < table@.len() && table@[i as int].0 == key && lookup(table@, key)
                == Some(table@[i as int].1),
            None => lookup(table@, key) is None,
        },
{
    let mut i: usize = 0;
    assert(table@.skip(0) =~= table@);
    while i < table.len()
        invariant
            i <= table@.len(),
            lookup(table@, key) == lookup(table@.skip(i as int), key),
        decreases table@.len() - i,
    {
        assert(table@.skip(i as int)[0] == table@[i as int]);
        if table[i].0 == key {
            return Some(i);
        }
        assert(table@.skip(i as int).drop_first() =~= table@.skip(i + 1));
        i = i + 1;
    }
    None
}

} // verus!
