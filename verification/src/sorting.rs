//! Sorted lists of names without repetitions.

use crate::text::{
    chars_eq, chars_lt, lemma_lex_lt_irreflexive, lemma_lex_lt_total, lemma_lex_lt_transitive,
    lex_lt, str_chars, texts,
};
use vstd::prelude::*;

verus! {

/// Whether each name of `names` comes strictly before the names after
/// it: `names` is sorted and holds no name twice.
pub open spec fn strictly_increasing(names: Seq<Seq<char>>) -> bool {
    forall|i: int, j: int| 0 <= i < j < names.len() ==> lex_lt(names[i], names[j])
}

/// `sorted` with `name` put in its place; `sorted` itself if it holds
/// `name` already.
pub open spec fn insert_name(sorted: Seq<Seq<char>>, name: Seq<char>) -> Seq<Seq<char>>
    decreases sorted.len(),
{
    if sorted.len() == 0 {
        seq![name]
    } else if sorted.last() == name {
        sorted
    } else if lex_lt(sorted.last(), name) {
        sorted.push(name)
    } else {
        insert_name(sorted.drop_last(), name).push(sorted.last())
    }
}

/// The names of `names` in lexicographic order, each once.
pub open spec fn sorted_names(names: Seq<Seq<char>>) -> Seq<Seq<char>>
    decreases names.len(),
{
    if names.len() == 0 {
        Seq::empty()
    } else {
        insert_name(sorted_names(names.drop_last()), names.last())
    }
}

/// Putting a name in its place keeps a list sorted and adds that name to
/// its names, and nothing else.
pub proof fn lemma_insert_name(sorted: Seq<Seq<char>>, name: Seq<char>)
    requires
        strictly_increasing(sorted),
    ensures
        strictly_increasing(insert_name(sorted, name)),
        forall|x: Seq<char>|
            #![trigger insert_name(sorted, name).contains(x)]
            #![trigger sorted.contains(x)]
            insert_name(sorted, name).contains(x) <==> (x == name || sorted.contains(x)),
        insert_name(sorted, name).contains(name),
    decreases sorted.len(),
{
    let r = insert_name(sorted, name);
    if sorted.len() == 0 {
        assert(r[0] == name);
    } else if sorted.last() == name {
        assert(sorted[sorted.len() - 1] == name);
    } else if lex_lt(sorted.last(), name) {
        assert forall|i: int, j: int| 0 <= i < j < r.len() implies lex_lt(r[i], r[j]) by {
            if j == sorted.len() && i < sorted.len() - 1 {
                lemma_lex_lt_transitive(sorted[i], sorted.last(), name);
            }
        }
        assert(r[sorted.len() as int] == name);
        assert forall|x: Seq<char>| r.contains(x) <==> (x == name || sorted.contains(x)) by {
            if r.contains(x) {
                let k = choose|k: int| 0 <= k < r.len() && r[k] == x;
                if k < sorted.len() {
                    assert(sorted[k] == x);
                }
            }
            if sorted.contains(x) {
                let k = choose|k: int| 0 <= k < sorted.len() && sorted[k] == x;
                assert(r[k] == x);
            }
        }
    } else {
        let init = sorted.drop_last();
        let last = sorted.last();
        lemma_lex_lt_total(last, name);
        assert(strictly_increasing(init)) by {
            assert forall|i: int, j: int| 0 <= i < j < init.len() implies lex_lt(
                init[i],
                init[j],
            ) by {
                assert(init[i] == sorted[i] && init[j] == sorted[j]);
            }
        }
        lemma_insert_name(init, name);
        let inner = insert_name(init, name);
        assert forall|i: int, j: int| 0 <= i < j < r.len() implies lex_lt(r[i], r[j]) by {
            if j == inner.len() {
                assert(inner.contains(inner[i]));
                if inner[i] != name {
                    let k = choose|k: int| 0 <= k < init.len() && init[k] == inner[i];
                    assert(sorted[k] == inner[i]);
                }
            }
        }
        assert(r[inner.len() as int] == last);
        assert forall|x: Seq<char>| r.contains(x) <==> (x == name || sorted.contains(x)) by {
            if r.contains(x) {
                let k = choose|k: int| 0 <= k < r.len() && r[k] == x;
                if k < inner.len() {
                    assert(inner.contains(inner[k]));
                    if x != name {
                        let m = choose|m: int| 0 <= m < init.len() && init[m] == x;
                        assert(sorted[m] == x);
                    }
                } else {
                    assert(sorted[sorted.len() - 1] == x);
                }
            }
            if x == name {
                assert(inner.contains(name));
                let k = choose|k: int| 0 <= k < inner.len() && inner[k] == name;
                assert(r[k] == name);
            }
            if sorted.contains(x) {
                let k = choose|k: int| 0 <= k < sorted.len() && sorted[k] == x;
                if k < init.len() {
                    assert(init[k] == x);
                    assert(inner.contains(x));
                    let m = choose|m: int| 0 <= m < inner.len() && inner[m] == x;
                    assert(r[m] == x);
                }
            }
        }
    }
}

/// The sorted list of `names` is sorted, holds no name twice, and holds
/// exactly the names of `names`.
pub proof fn lemma_sorted_names(names: Seq<Seq<char>>)
    ensures
        strictly_increasing(sorted_names(names)),
        forall|x: Seq<char>|
            #![trigger sorted_names(names).contains(x)]
            #![trigger names.contains(x)]
            sorted_names(names).contains(x) <==> names.contains(x),
    decreases names.len(),
{
    if names.len() > 0 {
        let init = names.drop_last();
        lemma_sorted_names(init);
        lemma_insert_name(sorted_names(init), names.last());
        assert forall|x: Seq<char>| sorted_names(names).contains(x) <==> names.contains(x) by {
            if names.contains(x) {
                let k = choose|k: int| 0 <= k < names.len() && names[k] == x;
                if k < init.len() {
                    assert(init[k] == x);
                }
            }
            if init.contains(x) {
                let k = choose|k: int| 0 <= k < init.len() && init[k] == x;
                assert(names[k] == x);
            }
            assert(names[names.len() - 1] == names.last());
        }
    }
}

/// Two sorted lists without repetitions that hold the same names are
/// the same list.
pub proof fn lemma_strictly_increasing_unique(a: Seq<Seq<char>>, b: Seq<Seq<char>>)
    requires
        strictly_increasing(a),
        strictly_increasing(b),
        forall|x: Seq<char>|
            #![trigger a.contains(x)]
            #![trigger b.contains(x)]
            a.contains(x) <==> b.contains(x),
    ensures
        a == b,
    decreases a.len(),
{
    if a.len() == 0 {
        if b.len() > 0 {
            assert(b.contains(b[0]));
        }
        assert(a =~= b);
    } else {
        assert(a.contains(a.last()));
        assert(b.contains(a.last()));
        let j = choose|j: int| 0 <= j < b.len() && b[j] == a.last();
        assert(b.contains(b.last()));
        let i = choose|i: int| 0 <= i < a.len() && a[i] == b.last();
        lemma_lex_lt_total(a.last(), b.last());
        assert(a.last() == b.last());
        let a0 = a.drop_last();
        let b0 = b.drop_last();
        assert forall|x: Seq<char>| a0.contains(x) <==> b0.contains(x) by {
            lemma_lex_lt_irreflexive(x);
            if a0.contains(x) {
                let k = choose|k: int| 0 <= k < a0.len() && a0[k] == x;
                assert(a[k] == x);
                assert(lex_lt(a[k], a[a.len() - 1]));
                assert(b.contains(x));
                let m = choose|m: int| 0 <= m < b.len() && b[m] == x;
                assert(b0[m] == x);
            }
            if b0.contains(x) {
                let k = choose|k: int| 0 <= k < b0.len() && b0[k] == x;
                assert(b[k] == x);
                assert(lex_lt(b[k], b[b.len() - 1]));
                assert(a.contains(x));
                let m = choose|m: int| 0 <= m < a.len() && a[m] == x;
                assert(a0[m] == x);
            }
        }
        assert(strictly_increasing(a0)) by {
            assert forall|i: int, j: int| 0 <= i < j < a0.len() implies lex_lt(a0[i], a0[j]) by {
                assert(a0[i] == a[i] && a0[j] == a[j]);
            }
        }
        assert(strictly_increasing(b0)) by {
            assert forall|i: int, j: int| 0 <= i < j < b0.len() implies lex_lt(b0[i], b0[j]) by {
                assert(b0[i] == b[i] && b0[j] == b[j]);
            }
        }
        lemma_strictly_increasing_unique(a0, b0);
        assert(a =~= a0.push(a.last()));
        assert(b =~= b0.push(b.last()));
    }
}

/// The sorted list depends on the names alone, not on their order or
/// their number: lists that hold the same names have the same sorted
/// list.
pub proof fn lemma_sorted_names_ignores_order(a: Seq<Seq<char>>, b: Seq<Seq<char>>)
    requires
        forall|x: Seq<char>|
            #![trigger a.contains(x)]
            #![trigger b.contains(x)]
            a.contains(x) <==> b.contains(x),
    ensures
        sorted_names(a) == sorted_names(b),
{
    lemma_sorted_names(a);
    lemma_sorted_names(b);
    assert forall|x: Seq<char>|
        #![trigger sorted_names(a).contains(x)]
        #![trigger sorted_names(b).contains(x)]
        sorted_names(a).contains(x) <==> sorted_names(b).contains(x) by {
        assert(sorted_names(a).contains(x) <==> a.contains(x));
        assert(sorted_names(b).contains(x) <==> b.contains(x));
    }
    lemma_strictly_increasing_unique(sorted_names(a), sorted_names(b));
}

/// Sorting a sorted list changes nothing.
pub proof fn lemma_sorted_names_idempotent(names: Seq<Seq<char>>)
    ensures
        sorted_names(sorted_names(names)) == sorted_names(names),
{
    lemma_sorted_names(names);
    lemma_sorted_names(sorted_names(names));
    assert forall|x: Seq<char>|
        #![trigger sorted_names(sorted_names(names)).contains(x)]
        #![trigger sorted_names(names).contains(x)]
        sorted_names(sorted_names(names)).contains(x) <==> sorted_names(names).contains(x) by {}
    lemma_strictly_increasing_unique(sorted_names(sorted_names(names)), sorted_names(names));
}

/// Where `name` goes into `sorted`: behind every name that does not come
/// after it. If the name before that place is `name` itself, the list
/// holds it already.
pub proof fn lemma_insert_name_at(sorted: Seq<Seq<char>>, name: Seq<char>, pos: int)
    requires
        0 <= pos <= sorted.len(),
        forall|k: int| pos <= k < sorted.len() ==> lex_lt(name, sorted[k]),
        pos > 0 ==> !lex_lt(name, sorted[pos - 1]),
    ensures
        insert_name(sorted, name) == if pos > 0 && sorted[pos - 1] == name {
            sorted
        } else {
            sorted.insert(pos, name)
        },
    decreases sorted.len(),
{
    if sorted.len() == 0 {
        assert(sorted.insert(0, name) =~= seq![name]);
    } else if pos == sorted.len() {
        lemma_lex_lt_total(sorted.last(), name);
        assert(sorted.insert(pos, name) =~= sorted.push(name));
    } else {
        let last = sorted.last();
        let init = sorted.drop_last();
        lemma_lex_lt_total(last, name);
        lemma_lex_lt_irreflexive(name);
        assert forall|k: int| pos <= k < init.len() implies lex_lt(name, init[k]) by {
            assert(init[k] == sorted[k]);
        }
        if pos > 0 {
            assert(init[pos - 1] == sorted[pos - 1]);
        }
        lemma_insert_name_at(init, name, pos);
        if pos > 0 && sorted[pos - 1] == name {
            assert(init.push(last) =~= sorted);
        } else {
            assert(init.insert(pos, name).push(last) =~= sorted.insert(pos, name));
        }
    }
}

/// The names of `names` in lexicographic order, each once.
pub fn sort_names(names: &Vec<String>) -> (sorted: Vec<String>)
    ensures
        texts(sorted@) == sorted_names(texts(names@)),
{
    let mut sorted: Vec<String> = Vec::new();
    let mut keys: Vec<Vec<char>> = Vec::new();
    let ghost all = texts(names@);
    let mut i: usize = 0;
    assert(all.take(0) =~= Seq::<Seq<char>>::empty());
    assert(texts(sorted@) =~= Seq::<Seq<char>>::empty());
    while i < names.len()
        invariant
            i <= names.len(),
            all == texts(names@),
            keys@.len() == sorted@.len(),
            forall|k: int| 0 <= k < keys@.len() ==> (#[trigger] keys@[k])@ == sorted@[k]@,
            texts(sorted@) == sorted_names(all.take(i as int)),
        decreases names.len() - i,
    {
        let key = str_chars(names[i].as_str());
        let mut pos: usize = keys.len();
        while pos > 0 && chars_lt(&key, &keys[pos - 1])
            invariant
                pos <= keys.len(),
                keys@.len() == sorted@.len(),
                forall|k: int| pos <= k < keys@.len() ==> lex_lt(key@, (#[trigger] keys@[k])@),
            decreases pos,
        {
            pos -= 1;
        }
        proof {
            let before = texts(sorted@);
            assert(all.take(i + 1).drop_last() =~= all.take(i as int));
            assert(all.take(i + 1).last() == key@);
            assert forall|k: int| pos <= k < before.len() implies lex_lt(key@, before[k]) by {
                assert(keys@[k]@ == sorted@[k]@);
            }
            if pos > 0 {
                assert(keys@[pos - 1]@ == before[pos - 1]);
            }
            lemma_insert_name_at(before, key@, pos as int);
        }
        if pos > 0 && chars_eq(&key, &keys[pos - 1]) {
        } else {
            let ghost before = sorted@;
            sorted.insert(pos, names[i].clone());
            keys.insert(pos, key);
            assert(texts(sorted@) =~= texts(before).insert(pos as int, names@[i as int]@));
        }
        i += 1;
    }
    assert(all.take(i as int) =~= all);
    sorted
}

} // verus!
