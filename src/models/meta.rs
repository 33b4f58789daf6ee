use vstd::prelude::*;

verus! {

/// A point in time: nanoseconds since the Unix epoch, UTC.
pub type Timestamp = i128;

/// Copies a value; the copy equals the value it was made from.
pub trait Duplicate: Sized {
    fn duplicate(&self) -> (r: Self)
        ensures
            r == *self,
    ;
}

impl Duplicate for String {
    fn duplicate(&self) -> (r: String) {
        self.clone()
    }
}

impl<T: Duplicate> Duplicate for Option<T> {
    fn duplicate(&self) -> (r: Option<T>) {
        match self {
            Some(v) => Some(v.duplicate()),
            None => None,
        }
    }
}

/// Copies every element of a vector.
pub fn duplicate_all<T: Duplicate>(v: &Vec<T>) -> (r: Vec<T>)
    ensures
        r@ == v@,
{
    let mut r: Vec<T> = Vec::new();
    let mut i: usize = 0;
    while i < v.len()
        invariant
            i <= v.len(),
            r@ == v@.subrange(0, i as int),
        decreases v.len() - i,
    {
        r.push(v[i].duplicate());
        i = i + 1;
        assert(r@ =~= v@.subrange(0, i as int));
    }
    assert(r@ =~= v@);
    r
}

/// The arguments of a new audit record.
#[derive(Debug)]
pub struct InsertMetaArgs {
    pub created_by: String,
}

/// An audit record: who created a record and when, and the stamps of its
/// later modification and (soft) deletion.
#[derive(Debug, Clone)]
pub struct Meta {
    pub id: usize,
    pub created_by: String,
    pub modified_by: Option<String>,
    pub deleted_by: Option<String>,
    pub created_on: Timestamp,
    pub modified_on: Option<Timestamp>,
    pub deleted_on: Option<Timestamp>,
}

impl Duplicate for Meta {
    fn duplicate(&self) -> (r: Meta) {
        Meta {
            id: self.id,
            created_by: self.created_by.duplicate(),
            modified_by: self.modified_by.duplicate(),
            deleted_by: self.deleted_by.duplicate(),
            created_on: self.created_on,
            modified_on: self.modified_on,
            deleted_on: self.deleted_on,
        }
    }
}

impl Meta {
    /// A record just created: id `id`, created by `by` at `now`, never
    /// modified nor deleted.
    pub open spec fn is_fresh(&self, id: int, by: String, now: Timestamp) -> bool {
        &&& self.id == id
        &&& self.created_by == by
        &&& self.created_on == now
        &&& self.modified_by is None
        &&& self.modified_on is None
        &&& self.deleted_by is None
        &&& self.deleted_on is None
    }

    /// A record is logically gone once its deletion is stamped.
    pub open spec fn spec_is_deleted(&self) -> bool {
        self.deleted_on is Some
    }

    pub fn is_deleted(&self) -> (r: bool)
        ensures
            r == self.spec_is_deleted(),
    {
        self.deleted_on.is_some()
    }
}

/// A record that holds nothing but an id.
#[derive(Debug)]
pub struct IdContainer {
    pub id: String,
}

} // verus!
