//! Lookup of elements by id: the first or the last element declared with a
//! given id (a document may declare an id more than once).

use vstd::prelude::*;
use crate::model::{Contraction, Dimension, Level, Member, Relation, ScaleDef};

verus! {

/// `i` is the first position holding `id`.
pub open spec fn is_first_of(ids: Seq<Seq<char>>, id: Seq<char>, i: int) -> bool {
    &&& 0 <= i < ids.len()
    &&& ids[i] == id
    &&& forall|j: int| 0 <= j < i ==> ids[j] != id
}

/// `i` is the last position holding `id`.
pub open spec fn is_last_of(ids: Seq<Seq<char>>, id: Seq<char>, i: int) -> bool {
    &&& 0 <= i < ids.len()
    &&& ids[i] == id
    &&& forall|j: int| i < j < ids.len() ==> ids[j] != id
}

/// The first position holding `id`, if any.
pub open spec fn first_of(ids: Seq<Seq<char>>, id: Seq<char>) -> Option<int> {
    if exists|i: int| is_first_of(ids, id, i) {
        Some(choose|i: int| is_first_of(ids, id, i))
    } else {
        None
    }
}

/// The last position holding `id`, if any.
pub open spec fn last_of(ids: Seq<Seq<char>>, id: Seq<char>) -> Option<int> {
    if exists|i: int| is_last_of(ids, id, i) {
        Some(choose|i: int| is_last_of(ids, id, i))
    } else {
        None
    }
}

pub proof fn lemma_first_of_is(ids: Seq<Seq<char>>, id: Seq<char>, i: int)
    requires
        is_first_of(ids, id, i),
    ensures
        first_of(ids, id) == Some(i),
{
    let k = choose|k: int| is_first_of(ids, id, k);
    assert(is_first_of(ids, id, k));
    if k < i {
        assert(ids[k] != id);
    }
    if i < k {
        assert(ids[i] != id);
    }
}

pub proof fn lemma_last_of_is(ids: Seq<Seq<char>>, id: Seq<char>, i: int)
    requires
        is_last_of(ids, id, i),
    ensures
        last_of(ids, id) == Some(i),
{
    let k = choose|k: int| is_last_of(ids, id, k);
    assert(is_last_of(ids, id, k));
    if k < i {
        assert(ids[i] != id);
    }
    if i < k {
        assert(ids[k] != id);
    }
}

/// Where an id occurs nowhere, it has no first and no last position.
pub proof fn lemma_absent(ids: Seq<Seq<char>>, id: Seq<char>)
    requires
        forall|j: int| 0 <= j < ids.len() ==> ids[j] != id,
    ensures
        first_of(ids, id) is None,
        last_of(ids, id) is None,
{
    if exists|i: int| is_first_of(ids, id, i) {
        let k = choose|i: int| is_first_of(ids, id, i);
        assert(ids[k] == id);
    }
    if exists|i: int| is_last_of(ids, id, i) {
        let k = choose|i: int| is_last_of(ids, id, i);
        assert(ids[k] == id);
    }
}

/// The last position of an id, when there is one, is a position of it.
pub proof fn lemma_last_of_bounds(ids: Seq<Seq<char>>, id: Seq<char>)
    ensures
        last_of(ids, id) matches Some(i) ==> is_last_of(ids, id, i),
{
}

/// An id has a first position exactly when it occurs.
pub proof fn lemma_first_of_iff_contains(ids: Seq<Seq<char>>, id: Seq<char>)
    ensures
        first_of(ids, id) is Some <==> ids.contains(id),
        first_of(ids, id) matches Some(i) ==> is_first_of(ids, id, i),
{
    if ids.contains(id) {
        let k = choose|k: int| 0 <= k < ids.len() && ids[k] == id;
        lemma_first_from(ids, id, k);
    }
    if first_of(ids, id) is Some {
        let i = choose|i: int| is_first_of(ids, id, i);
        assert(ids[i] == id);
    }
}

proof fn lemma_first_from(ids: Seq<Seq<char>>, id: Seq<char>, k: int)
    requires
        0 <= k < ids.len(),
        ids[k] == id,
    ensures
        exists|i: int| is_first_of(ids, id, i),
    decreases k,
{
    if exists|j: int| 0 <= j < k && ids[j] == id {
        let j = choose|j: int| 0 <= j < k && ids[j] == id;
        lemma_first_from(ids, id, j);
    } else {
        assert(is_first_of(ids, id, k));
    }
}

/// Elements that carry an id.
pub trait Keyed: Sized {
    spec fn key(&self) -> Seq<char>;

    fn key_text(&self) -> (r: &String)
        ensures
            r@ == self.key(),
    ;
}

pub open spec fn keys<T: Keyed>(s: Seq<T>) -> Seq<Seq<char>> {
    s.map_values(|x: T| x.key())
}

impl Keyed for Dimension {
    open spec fn key(&self) -> Seq<char> {
        self.id@
    }

    fn key_text(&self) -> (r: &String) {
        &self.id
    }
}

impl Keyed for Member {
    open spec fn key(&self) -> Seq<char> {
        self.id@
    }

    fn key_text(&self) -> (r: &String) {
        &self.id
    }
}

impl Keyed for Relation {
    open spec fn key(&self) -> Seq<char> {
        self.id@
    }

    fn key_text(&self) -> (r: &String) {
        &self.id
    }
}

impl Keyed for ScaleDef {
    open spec fn key(&self) -> Seq<char> {
        self.id@
    }

    fn key_text(&self) -> (r: &String) {
        &self.id
    }
}

impl Keyed for Contraction {
    open spec fn key(&self) -> Seq<char> {
        self.id@
    }

    fn key_text(&self) -> (r: &String) {
        &self.id
    }
}

impl Keyed for Level {
    open spec fn key(&self) -> Seq<char> {
        self.observation@
    }

    fn key_text(&self) -> (r: &String) {
        &self.observation
    }
}

impl Keyed for String {
    open spec fn key(&self) -> Seq<char> {
        self@
    }

    fn key_text(&self) -> (r: &String) {
        self
    }
}

/// The position of the first element with key `id`.
pub fn find_first<T: Keyed>(v: &Vec<T>, id: &String) -> (r: Option<usize>)
    ensures
        match r {
            Some(i) => is_first_of(keys(v@), id@, i as int),
            None => forall|j: int| 0 <= j < v@.len() ==> keys(v@)[j] != id@,
        },
        r matches Some(i) ==> first_of(keys(v@), id@) == Some(i as int),
        r is None ==> first_of(keys(v@), id@) is None && last_of(keys(v@), id@) is None,
{
    let mut i: usize = 0;
    while i < v.len()
        invariant
            i <= v.len(),
            forall|j: int| 0 <= j < i ==> keys(v@)[j] != id@,
        decreases v.len() - i,
    {
        let k = v[i].key_text();
        assert(keys(v@)[i as int] == k@);
        if *k == *id {
            proof {
                lemma_first_of_is(keys(v@), id@, i as int);
            }
            return Some(i);
        }
        i = i + 1;
    }
    proof {
        lemma_absent(keys(v@), id@);
    }
    None
}

/// The position of the last element with key `id`.
pub fn find_last<T: Keyed>(v: &Vec<T>, id: &String) -> (r: Option<usize>)
    ensures
        match r {
            Some(i) => is_last_of(keys(v@), id@, i as int),
            None => forall|j: int| 0 <= j < v@.len() ==> keys(v@)[j] != id@,
        },
        r matches Some(i) ==> last_of(keys(v@), id@) == Some(i as int),
        r is None ==> first_of(keys(v@), id@) is None && last_of(keys(v@), id@) is None,
{
    let mut i: usize = v.len();
    while i > 0
        invariant
            i <= v.len(),
            forall|j: int| i <= j < v@.len() ==> keys(v@)[j] != id@,
        decreases i,
    {
        let k = v[i - 1].key_text();
        assert(keys(v@)[i - 1] == k@);
        if *k == *id {
            proof {
                lemma_last_of_is(keys(v@), id@, i - 1);
            }
            return Some(i - 1);
        }
        i = i - 1;
    }
    proof {
        lemma_absent(keys(v@), id@);
    }
    None
}

/// Whether some element has key `id`.
pub fn contains_key<T: Keyed>(v: &Vec<T>, id: &String) -> (r: bool)
    ensures
        r == keys(v@).contains(id@),
{
    match find_first(v, id) {
        Some(i) => {
            assert(keys(v@)[i as int] == id@);
            true
        },
        None => false,
    }
}

} // verus!
