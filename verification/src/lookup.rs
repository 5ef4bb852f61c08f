//! Looking up contacts by class, and by class and id.
use vstd::prelude::*;

use crate::class::Class;
use crate::contact::Contact;
use crate::select::{first_min, first_min_of, law_first_min, FARTHEST};

verus! {

/// Whether `contacts[i]` is the first contact of this class with this id.
pub open spec fn is_first_ship(contacts: Seq<Contact>, id: u32, class: Class, i: int) -> bool {
    &&& 0 <= i < contacts.len()
    &&& contacts[i].id == id && contacts[i].class == class
    &&& forall|j: int|
        #![trigger contacts[j]]
        0 <= j < i ==> !(contacts[j].id == id && contacts[j].class == class)
}

/// The place of the first contact of this class with this id.
pub open spec fn ship_place(contacts: Seq<Contact>, id: u32, class: Class) -> Option<int> {
    if exists|i: int| is_first_ship(contacts, id, class, i) {
        Some(choose|i: int| is_first_ship(contacts, id, class, i))
    } else {
        None
    }
}

/// Whether `contacts[i]` is the first contact of this class.
pub open spec fn is_first_of_class(contacts: Seq<Contact>, class: Class, i: int) -> bool {
    &&& 0 <= i < contacts.len()
    &&& contacts[i].class == class
    &&& forall|j: int| #![trigger contacts[j]] 0 <= j < i ==> contacts[j].class != class
}

/// The place of the first contact of this class.
pub open spec fn first_of_class(contacts: Seq<Contact>, class: Class) -> Option<int> {
    if exists|i: int| is_first_of_class(contacts, class, i) {
        Some(choose|i: int| is_first_of_class(contacts, class, i))
    } else {
        None
    }
}

/// Whether `contacts[i]` is the last contact of this class.
pub open spec fn is_last_of_class(contacts: Seq<Contact>, class: Class, i: int) -> bool {
    &&& 0 <= i < contacts.len()
    &&& contacts[i].class == class
    &&& forall|j: int|
        #![trigger contacts[j]]
        i < j < contacts.len() ==> contacts[j].class != class
}

/// The place of the last contact of this class.
pub open spec fn last_of_class(contacts: Seq<Contact>, class: Class) -> Option<int> {
    if exists|i: int| is_last_of_class(contacts, class, i) {
        Some(choose|i: int| is_last_of_class(contacts, class, i))
    } else {
        None
    }
}

/// The distances of the contacts of one class.
pub open spec fn class_keys(contacts: Seq<Contact>, class: Class, distances: Seq<u64>) -> Seq<Option<u64>> {
    Seq::new(
        contacts.len(),
        |i: int|
            if contacts[i].class == class {
                Some(distances[i])
            } else {
                None
            },
    )
}

/// The place of the closest contact of one class, the first among equals.
pub open spec fn nearest(contacts: Seq<Contact>, class: Class, distances: Seq<u64>) -> Option<int> {
    first_min_of(class_keys(contacts, class, distances))
}

/// An optional place as a mathematical integer.
pub open spec fn as_place(place: Option<usize>) -> Option<int> {
    match place {
        Some(i) => Some(i as int),
        None => None,
    }
}

/// The place of the first contact of this class with this id.
pub fn find_ship(contacts: &Vec<Contact>, id: u32, class: Class) -> (place: Option<usize>)
    ensures
        as_place(place) == ship_place(contacts@, id, class),
        place matches Some(i) ==> is_first_ship(contacts@, id, class, i as int),
{
    let mut i: usize = 0;
    while i < contacts.len()
        invariant
            0 <= i <= contacts.len(),
            forall|j: int|
                #![trigger contacts@[j]]
                0 <= j < i ==> !(contacts@[j].id == id && contacts@[j].class == class),
        decreases contacts.len() - i,
    {
        if contacts[i].id == id && contacts[i].class == class {
            proof {
                assert(is_first_ship(contacts@, id, class, i as int));
                let k = choose|k: int| is_first_ship(contacts@, id, class, k);
                assert(is_first_ship(contacts@, id, class, k));
                if k < i {
                    assert(contacts@[k].id == id);
                } else if k > i {
                    assert(contacts@[i as int].id == id);
                }
            }
            return Some(i);
        }
        i = i + 1;
    }
    None
}

/// The place of the first contact of this class.
pub fn find_class(contacts: &Vec<Contact>, class: Class) -> (place: Option<usize>)
    ensures
        as_place(place) == first_of_class(contacts@, class),
        place matches Some(i) ==> is_first_of_class(contacts@, class, i as int),
{
    let mut i: usize = 0;
    while i < contacts.len()
        invariant
            0 <= i <= contacts.len(),
            forall|j: int| #![trigger contacts@[j]] 0 <= j < i ==> contacts@[j].class != class,
        decreases contacts.len() - i,
    {
        if contacts[i].class == class {
            proof {
                assert(is_first_of_class(contacts@, class, i as int));
                let k = choose|k: int| is_first_of_class(contacts@, class, k);
                assert(is_first_of_class(contacts@, class, k));
                if k < i {
                    assert(contacts@[k].class == class);
                } else if k > i {
                    assert(contacts@[i as int].class == class);
                }
            }
            return Some(i);
        }
        i = i + 1;
    }
    None
}

/// The place of the last contact of this class.
pub fn find_last_class(contacts: &Vec<Contact>, class: Class) -> (place: Option<usize>)
    ensures
        as_place(place) == last_of_class(contacts@, class),
        place matches Some(i) ==> is_last_of_class(contacts@, class, i as int),
{
    let mut i: usize = contacts.len();
    while i > 0
        invariant
            0 <= i <= contacts.len(),
            forall|j: int|
                #![trigger contacts@[j]]
                i <= j < contacts@.len() ==> contacts@[j].class != class,
        decreases i,
    {
        i = i - 1;
        if contacts[i].class == class {
            proof {
                assert(is_last_of_class(contacts@, class, i as int));
                let k = choose|k: int| is_last_of_class(contacts@, class, k);
                assert(is_last_of_class(contacts@, class, k));
                if k < i {
                    assert(contacts@[i as int].class == class);
                } else if k > i {
                    assert(contacts@[k].class == class);
                }
            }
            return Some(i);
        }
    }
    None
}

/// The place of the closest contact of one class, the first among equals.
pub fn find_nearest(contacts: &Vec<Contact>, class: Class, distances: &Vec<u64>) -> (place: Option<usize>)
    requires
        distances.len() == contacts.len(),
    ensures
        as_place(place) == nearest(contacts@, class, distances@),
        place matches Some(i) ==> i < contacts.len() && contacts@[i as int].class == class,
{
    let ghost all = class_keys(contacts@, class, distances@);
    let mut keys: Vec<Option<u64>> = Vec::new();
    let mut i: usize = 0;
    while i < contacts.len()
        invariant
            0 <= i <= contacts.len(),
            distances.len() == contacts.len(),
            all == class_keys(contacts@, class, distances@),
            keys@ == all.take(i as int),
        decreases contacts.len() - i,
    {
        if contacts[i].class == class {
            keys.push(Some(distances[i]));
        } else {
            keys.push(None);
        }
        assert(all.take(i as int + 1) =~= all.take(i as int).push(all[i as int]));
        i = i + 1;
    }
    assert(keys@ =~= all);
    first_min(&keys)
}

/// The contact found by class and id has both, none before it has both, and one is found where
/// there is one.
pub proof fn law_ship_place(contacts: Seq<Contact>, id: u32, class: Class)
    ensures
        match ship_place(contacts, id, class) {
            Some(p) => {
                &&& 0 <= p < contacts.len()
                &&& contacts[p].id == id && contacts[p].class == class
                &&& forall|j: int|
                    #![trigger contacts[j]]
                    0 <= j < p ==> contacts[j].id != id || contacts[j].class != class
            },
            None => forall|j: int|
                #![trigger contacts[j]]
                0 <= j < contacts.len() ==> contacts[j].id != id || contacts[j].class != class,
        },
{
    match ship_place(contacts, id, class) {
        Some(p) => {
            assert(is_first_ship(contacts, id, class, p));
        },
        None => {
            assert forall|j: int| #![trigger contacts[j]] 0 <= j < contacts.len() implies contacts[j].id
                != id || contacts[j].class != class by {
                if contacts[j].id == id && contacts[j].class == class {
                    lemma_first_ship_exists(contacts, id, class, j);
                }
            }
        },
    }
}

proof fn lemma_first_ship_exists(contacts: Seq<Contact>, id: u32, class: Class, i: int)
    requires
        0 <= i < contacts.len(),
        contacts[i].id == id,
        contacts[i].class == class,
    ensures
        exists|p: int| is_first_ship(contacts, id, class, p),
    decreases i,
{
    if !is_first_ship(contacts, id, class, i) {
        let j = choose|j: int|
            #![trigger contacts[j]]
            0 <= j < i && contacts[j].id == id && contacts[j].class == class;
        lemma_first_ship_exists(contacts, id, class, j);
    }
}

/// The first contact of a class is of that class, none before it is, and there is one where
/// there is a contact of that class.
pub proof fn law_first_of_class(contacts: Seq<Contact>, class: Class)
    ensures
        match first_of_class(contacts, class) {
            Some(p) => {
                &&& 0 <= p < contacts.len()
                &&& contacts[p].class == class
                &&& forall|j: int| #![trigger contacts[j]] 0 <= j < p ==> contacts[j].class != class
            },
            None => forall|j: int|
                #![trigger contacts[j]]
                0 <= j < contacts.len() ==> contacts[j].class != class,
        },
{
    match first_of_class(contacts, class) {
        Some(p) => {
            assert(is_first_of_class(contacts, class, p));
        },
        None => {
            assert forall|j: int| #![trigger contacts[j]] 0 <= j < contacts.len() implies contacts[j].class
                != class by {
                if contacts[j].class == class {
                    lemma_first_of_class_exists(contacts, class, j);
                }
            }
        },
    }
}

proof fn lemma_first_of_class_exists(contacts: Seq<Contact>, class: Class, i: int)
    requires
        0 <= i < contacts.len(),
        contacts[i].class == class,
    ensures
        exists|p: int| is_first_of_class(contacts, class, p),
    decreases i,
{
    if !is_first_of_class(contacts, class, i) {
        let j = choose|j: int| #![trigger contacts[j]] 0 <= j < i && contacts[j].class == class;
        lemma_first_of_class_exists(contacts, class, j);
    }
}

/// The last contact of a class is of that class, none after it is, and there is one where there
/// is a contact of that class.
pub proof fn law_last_of_class(contacts: Seq<Contact>, class: Class)
    ensures
        match last_of_class(contacts, class) {
            Some(p) => {
                &&& 0 <= p < contacts.len()
                &&& contacts[p].class == class
                &&& forall|j: int|
                    #![trigger contacts[j]]
                    p < j < contacts.len() ==> contacts[j].class != class
            },
            None => forall|j: int|
                #![trigger contacts[j]]
                0 <= j < contacts.len() ==> contacts[j].class != class,
        },
{
    match last_of_class(contacts, class) {
        Some(p) => {
            assert(is_last_of_class(contacts, class, p));
        },
        None => {
            assert forall|j: int| #![trigger contacts[j]] 0 <= j < contacts.len() implies contacts[j].class
                != class by {
                if contacts[j].class == class {
                    lemma_last_of_class_exists(contacts, class, j);
                }
            }
        },
    }
}

proof fn lemma_last_of_class_exists(contacts: Seq<Contact>, class: Class, i: int)
    requires
        0 <= i < contacts.len(),
        contacts[i].class == class,
    ensures
        exists|p: int| is_last_of_class(contacts, class, p),
    decreases contacts.len() - i,
{
    if !is_last_of_class(contacts, class, i) {
        let j = choose|j: int|
            #![trigger contacts[j]]
            i < j < contacts.len() && contacts[j].class == class;
        lemma_last_of_class_exists(contacts, class, j);
    }
}

/// The nearest contact of a class is of that class and at a finite distance; no contact of that
/// class is closer, and none as close stands before it. There is none only where no contact of
/// that class is at a finite distance.
pub proof fn law_nearest(contacts: Seq<Contact>, class: Class, distances: Seq<u64>)
    ensures
        match nearest(contacts, class, distances) {
            Some(p) => {
                &&& 0 <= p < contacts.len()
                &&& contacts[p].class == class
                &&& distances[p] < FARTHEST
                &&& forall|j: int|
                    #![trigger contacts[j]]
                    0 <= j < contacts.len() && contacts[j].class == class ==> distances[p]
                        <= distances[j] && (j < p ==> distances[p] < distances[j])
            },
            None => forall|j: int|
                #![trigger contacts[j]]
                0 <= j < contacts.len() && contacts[j].class == class ==> distances[j] >= FARTHEST,
        },
{
    let keys = class_keys(contacts, class, distances);
    law_first_min(keys);
    assert forall|j: int|
        #![trigger contacts[j]]
        0 <= j < contacts.len() && contacts[j].class == class implies keys[j] == Some(
        distances[j],
    ) by {}
}

} // verus!
