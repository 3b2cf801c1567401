//! Lists of names in which no name occurs twice.

use vstd::prelude::*;

verus! {

/// The names that `names` holds, as sequences of characters.
pub open spec fn views(names: Seq<String>) -> Seq<Seq<char>> {
    Seq::new(names.len(), |i: int| names[i]@)
}

/// The position of `name` in `names`, if it occurs there.
pub open spec fn position(names: Seq<Seq<char>>, name: Seq<char>) -> Option<int> {
    if exists|i: int| 0 <= i < names.len() && names[i] == name {
        Some(choose|i: int| 0 <= i < names.len() && names[i] == name)
    } else {
        None
    }
}

/// `names` with `name` added at the end, unless it is there already.
pub open spec fn with_name(names: Seq<Seq<char>>, name: Seq<char>) -> Seq<Seq<char>> {
    match position(names, name) {
        Some(_) => names,
        None => names.push(name),
    }
}

/// `names` without `name`.
pub open spec fn without_name(names: Seq<Seq<char>>, name: Seq<char>) -> Seq<Seq<char>> {
    match position(names, name) {
        Some(i) => names.remove(i),
        None => names,
    }
}

/// What [`position`] returns is a position of the name, and it returns one
/// whenever the name occurs.
pub proof fn lemma_position(names: Seq<Seq<char>>, name: Seq<char>)
    ensures
        match position(names, name) {
            Some(i) => 0 <= i < names.len() && names[i] == name,
            None => forall|i: int| 0 <= i < names.len() ==> names[i] != name,
        },
{
}

/// Where no name occurs twice, a name has one position.
pub proof fn lemma_position_is(names: Seq<Seq<char>>, name: Seq<char>, i: int)
    requires
        names.no_duplicates(),
        0 <= i < names.len(),
        names[i] == name,
    ensures
        position(names, name) == Some(i),
{
}

/// Adding a name keeps the names distinct, and puts the name in the list.
pub proof fn lemma_with_name(names: Seq<Seq<char>>, name: Seq<char>)
    requires
        names.no_duplicates(),
    ensures
        with_name(names, name).no_duplicates(),
        with_name(names, name).contains(name),
        forall|other: Seq<char>| names.contains(other) ==> with_name(names, name).contains(other),
{
    lemma_position(names, name);
    let added = with_name(names, name);
    match position(names, name) {
        Some(i) => {},
        None => {
            assert(added[names.len() as int] == name);
            assert forall|other: Seq<char>| names.contains(other) implies added.contains(other) by {
                let i = choose|i: int| 0 <= i < names.len() && names[i] == other;
                assert(added[i] == other);
            }
        },
    }
}

/// Removing a name keeps the names distinct, takes the name out of the list,
/// and leaves every other name in it.
pub proof fn lemma_without_name(names: Seq<Seq<char>>, name: Seq<char>)
    requires
        names.no_duplicates(),
    ensures
        without_name(names, name).no_duplicates(),
        !without_name(names, name).contains(name),
        forall|other: Seq<char>|
            other != name && names.contains(other) ==> without_name(names, name).contains(other),
        forall|other: Seq<char>| without_name(names, name).contains(other) ==> names.contains(other),
{
    lemma_position(names, name);
    let removed = without_name(names, name);
    match position(names, name) {
        Some(i) => {
            assert forall|other: Seq<char>| other != name && names.contains(other) implies removed.contains(
                other,
            ) by {
                let j = choose|j: int| 0 <= j < names.len() && names[j] == other;
                if j < i {
                    assert(removed[j] == other);
                } else {
                    assert(removed[j - 1] == other);
                }
            }
        },
        None => {},
    }
}

/// Where no name occurs twice, taking out the name at `gone` moves the names
/// behind it one place forward and leaves the others where they are.
pub proof fn lemma_position_after_remove(names: Seq<Seq<char>>, gone: int, name: Seq<char>)
    requires
        names.no_duplicates(),
        0 <= gone < names.len(),
    ensures
        names.remove(gone).no_duplicates(),
        position(names.remove(gone), name) == match position(names, name) {
            Some(i) => if i == gone {
                None
            } else if i < gone {
                Some(i)
            } else {
                Some(i - 1)
            },
            None => None,
        },
{
    let left = names.remove(gone);
    lemma_position(names, name);
    lemma_position(left, name);
    assert forall|i: int, j: int| 0 <= i < left.len() && 0 <= j < left.len() && i != j implies left[i]
        != left[j] by {
        let a = if i < gone {
            i
        } else {
            i + 1
        };
        let b = if j < gone {
            j
        } else {
            j + 1
        };
        assert(left[i] == names[a] && left[j] == names[b]);
    }
    match position(names, name) {
        Some(i) => {
            if i == gone {
                if let Some(k) = position(left, name) {
                    let a = if k < gone {
                        k
                    } else {
                        k + 1
                    };
                    assert(names[a] == name);
                }
            } else if i < gone {
                assert(left[i] == name);
                lemma_position_is(left, name, i);
            } else {
                assert(left[i - 1] == name);
                lemma_position_is(left, name, i - 1);
            }
        },
        None => {
            if let Some(k) = position(left, name) {
                let a = if k < gone {
                    k
                } else {
                    k + 1
                };
                assert(names[a] == name);
            }
        },
    }
}

/// Where no name occurs twice, adding a name that is not there puts it last
/// and leaves the others where they are.
pub proof fn lemma_position_after_push(names: Seq<Seq<char>>, added: Seq<char>, name: Seq<char>)
    requires
        names.no_duplicates(),
        position(names, added) is None,
    ensures
        names.push(added).no_duplicates(),
        position(names.push(added), name) == if name == added {
            Some(names.len() as int)
        } else {
            position(names, name)
        },
{
    let more = names.push(added);
    lemma_position(names, name);
    lemma_position(names, added);
    lemma_position(more, name);
    if name == added {
        lemma_position_is(more, name, names.len() as int);
    } else {
        match position(names, name) {
            Some(i) => {
                assert(more[i] == name);
                lemma_position_is(more, name, i);
            },
            None => {
                if let Some(k) = position(more, name) {
                    assert(more[k] == names[k]);
                }
            },
        }
    }
}

/// No name occurs twice in `names`.
pub open spec fn distinct(names: Seq<String>) -> bool {
    views(names).no_duplicates()
}

/// Finds `name` in `names`.
pub fn find(names: &Vec<String>, name: &str) -> (r: Option<usize>)
    requires
        distinct(names@),
    ensures
        match r {
            Some(i) => position(views(names@), name@) == Some(i as int),
            None => position(views(names@), name@) is None,
        },
{
    let key = name.to_owned();
    let mut i: usize = 0;
    while i < names.len()
        invariant
            i <= names.len(),
            key@ == name@,
            distinct(names@),
            forall|j: int| 0 <= j < i ==> views(names@)[j] != name@,
        decreases names.len() - i,
    {
        if names[i] == key {
            proof {
                lemma_position_is(views(names@), name@, i as int);
            }
            return Some(i);
        }
        i = i + 1;
    }
    None
}

/// Adds `name` at the end of `names`, unless it is there already.
pub fn insert(names: &mut Vec<String>, name: &str)
    requires
        distinct(old(names)@),
    ensures
        distinct(final(names)@),
        views(final(names)@) == with_name(views(old(names)@), name@),
{
    match find(names, name) {
        Some(_) => {},
        None => {
            names.push(name.to_owned());
            assert(views(names@) =~= views(old(names)@).push(name@));
        },
    }
    proof {
        lemma_with_name(views(old(names)@), name@);
    }
}

/// Takes `name` out of `names`, if it is there.
pub fn remove(names: &mut Vec<String>, name: &str)
    requires
        distinct(old(names)@),
    ensures
        distinct(final(names)@),
        views(final(names)@) == without_name(views(old(names)@), name@),
{
    match find(names, name) {
        Some(i) => {
            names.remove(i);
            assert(views(names@) =~= views(old(names)@).remove(i as int));
        },
        None => {},
    }
    proof {
        lemma_without_name(views(old(names)@), name@);
    }
}

/// A copy of `names`.
pub fn copy(names: &Vec<String>) -> (r: Vec<String>)
    ensures
        views(r@) == views(names@),
{
    let mut r: Vec<String> = Vec::with_capacity(names.len());
    let mut i: usize = 0;
    while i < names.len()
        invariant
            i <= names.len(),
            r@.len() == i,
            forall|j: int| 0 <= j < i ==> r@[j]@ == names@[j]@,
        decreases names.len() - i,
    {
        r.push(names[i].clone());
        i = i + 1;
    }
    assert(views(r@) =~= views(names@));
    r
}

} // verus!
