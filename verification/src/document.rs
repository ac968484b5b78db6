//! Documents: unordered field-to-value mappings, the unit of storage in a
//! collection.

use vstd::prelude::*;

verus! {

/// An unordered mapping from field names to values. Field names never
/// repeat, so the value of a field is a function of its name alone.
pub struct Document {
    fields: Vec<(String, String)>,
}

impl Document {
    /// The (name, value) character pairs, in insertion order.
    pub closed spec fn fields_seq(self) -> Seq<(Seq<char>, Seq<char>)> {
        self.fields@.map_values(|p: (String, String)| (p.0@, p.1@))
    }

    /// Field names never repeat.
    pub open spec fn wf(self) -> bool {
        forall|i: int, j: int|
            0 <= i < j < self.fields_seq().len() ==> #[trigger] self.fields_seq()[i].0
                != #[trigger] self.fields_seq()[j].0
    }

    /// Whether the document has a field named `k`.
    pub open spec fn spec_has_field(self, k: Seq<char>) -> bool {
        exists|i: int| 0 <= i < self.fields_seq().len() && #[trigger] self.fields_seq()[i].0 == k
    }

    /// The value of the field named `k`, when such a field exists.
    pub open spec fn spec_get(self, k: Seq<char>) -> Option<Seq<char>> {
        if self.spec_has_field(k) {
            let i = choose|i: int|
                0 <= i < self.fields_seq().len() && #[trigger] self.fields_seq()[i].0 == k;
            Some(self.fields_seq()[i].1)
        } else {
            None
        }
    }

    /// An empty document: no field has a value.
    pub fn new() -> (r: Document)
        ensures
            r.wf(),
            r.fields_seq().len() == 0,
            forall|k: Seq<char>| !r.spec_has_field(k),
    {
        Document { fields: Vec::new() }
    }

    /// How many fields the document has.
    pub fn field_count(&self) -> (r: usize)
        ensures
            r == self.fields_seq().len(),
    {
        self.fields.len()
    }

    /// The field at a position, for walking the document from outside.
    pub fn field_at(&self, i: usize) -> (r: &(String, String))
        requires
            i < self.fields_seq().len(),
        ensures
            r.0@ == self.fields_seq()[i as int].0,
            r.1@ == self.fields_seq()[i as int].1,
    {
        &self.fields[i]
    }

    /// The value of the field named `key`, when the document has one.
    pub fn get(&self, key: &str) -> (r: Option<&String>)
        requires
            self.wf(),
        ensures
            (match r {
                Some(v) => self.spec_has_field(key@) && self.spec_get(key@) == Some(v@),
                None => !self.spec_has_field(key@),
            }),
    {
        let needle = String::from_str(key);
        let mut i: usize = 0;
        while i < self.fields.len()
            invariant
                self.wf(),
                i <= self.fields.len(),
                needle@ == key@,
                forall|j: int| 0 <= j < i ==> self.fields_seq()[j].0 != key@,
            decreases self.fields.len() - i,
        {
            if self.fields[i].0 == needle {
                proof {
                    lemma_get_at(*self, key@, i as int);
                }
                return Some(&self.fields[i].1);
            }
            i = i + 1;
        }
        None
    }

    /// Sets the field named `key` to `value`: afterwards that field holds
    /// `value` and every other field is as it was. A present name is
    /// overwritten, an absent one appended.
    pub fn set_field(&mut self, key: &str, value: &str)
        requires
            old(self).wf(),
        ensures
            final(self).wf(),
            final(self).spec_get(key@) == Some(value@),
            forall|k: Seq<char>| k != key@ ==> final(self).spec_get(k) == old(self).spec_get(k),
            forall|k: Seq<char>|
                k != key@ ==> (final(self).spec_has_field(k) <==> old(self).spec_has_field(k)),
    {
        let needle = String::from_str(key);
        let mut i: usize = 0;
        while i < self.fields.len()
            invariant
                *self == *old(self),
                old(self).wf(),
                i <= self.fields.len(),
                needle@ == key@,
                forall|j: int| 0 <= j < i ==> self.fields_seq()[j].0 != key@,
            decreases self.fields.len() - i,
        {
            if self.fields[i].0 == needle {
                let ghost pre = *self;
                self.fields.set(i, (needle, String::from_str(value)));
                proof {
                    assert(self.fields_seq() =~= pre.fields_seq().update(
                        i as int,
                        (key@, value@),
                    ));
                    lemma_set_field_updated(pre, *self, key@, value@, i as int);
                }
                return ;
            }
            i = i + 1;
        }
        let ghost pre = *self;
        self.fields.push((needle, String::from_str(value)));
        proof {
            assert(self.fields_seq() =~= pre.fields_seq().push((key@, value@)));
            lemma_set_field_pushed(pre, *self, key@, value@);
        }
    }
}

/// With distinct field names, any position holding `k` determines the value
/// of the field named `k`.
proof fn lemma_get_at(d: Document, k: Seq<char>, i: int)
    requires
        d.wf(),
        0 <= i < d.fields_seq().len(),
        d.fields_seq()[i].0 == k,
    ensures
        d.spec_has_field(k),
        d.spec_get(k) == Some(d.fields_seq()[i].1),
{
    assert(d.spec_has_field(k));
    let j = choose|j: int| 0 <= j < d.fields_seq().len() && #[trigger] d.fields_seq()[j].0 == k;
    if i < j {
        assert(d.fields_seq()[i].0 != d.fields_seq()[j].0);
        assert(false);
    }
    if j < i {
        assert(d.fields_seq()[j].0 != d.fields_seq()[i].0);
        assert(false);
    }
}

/// Overwriting the value at the position that already held `key` updates
/// that field and leaves every other field unchanged.
proof fn lemma_set_field_updated(pre: Document, post: Document, key: Seq<char>, value: Seq<char>, i: int)
    requires
        pre.wf(),
        0 <= i < pre.fields_seq().len(),
        pre.fields_seq()[i].0 == key,
        post.fields_seq() == pre.fields_seq().update(i, (key, value)),
    ensures
        post.wf(),
        post.spec_get(key) == Some(value),
        forall|k: Seq<char>| k != key ==> post.spec_get(k) == pre.spec_get(k),
        forall|k: Seq<char>| k != key ==> (post.spec_has_field(k) <==> pre.spec_has_field(k)),
{
    assert(forall|j: int|
        0 <= j < post.fields_seq().len() ==> post.fields_seq()[j].0 == pre.fields_seq()[j].0);
    assert(post.wf());
    lemma_get_at(post, key, i);
    assert forall|k: Seq<char>| k != key implies (post.spec_has_field(k) <==> pre.spec_has_field(
        k,
    )) by {
        if post.spec_has_field(k) {
            let j = choose|j: int|
                0 <= j < post.fields_seq().len() && #[trigger] post.fields_seq()[j].0 == k;
            assert(pre.fields_seq()[j].0 == k);
        }
        if pre.spec_has_field(k) {
            let j = choose|j: int|
                0 <= j < pre.fields_seq().len() && #[trigger] pre.fields_seq()[j].0 == k;
            assert(post.fields_seq()[j].0 == k);
        }
    }
    assert forall|k: Seq<char>| k != key implies post.spec_get(k) == pre.spec_get(k) by {
        if pre.spec_has_field(k) {
            let j = choose|j: int|
                0 <= j < pre.fields_seq().len() && #[trigger] pre.fields_seq()[j].0 == k;
            assert(j != i);
            lemma_get_at(pre, k, j);
            lemma_get_at(post, k, j);
        }
    }
}

/// Appending a fresh field leaves every existing field unchanged and gives
/// the new field its value.
proof fn lemma_set_field_pushed(pre: Document, post: Document, key: Seq<char>, value: Seq<char>)
    requires
        pre.wf(),
        !pre.spec_has_field(key),
        post.fields_seq() == pre.fields_seq().push((key, value)),
    ensures
        post.wf(),
        post.spec_get(key) == Some(value),
        forall|k: Seq<char>| k != key ==> post.spec_get(k) == pre.spec_get(k),
        forall|k: Seq<char>| k != key ==> (post.spec_has_field(k) <==> pre.spec_has_field(k)),
{
    let n = pre.fields_seq().len() as int;
    assert(forall|j: int| 0 <= j < n ==> post.fields_seq()[j] == pre.fields_seq()[j]);
    assert(post.fields_seq()[n].0 == key);
    assert forall|i: int, j: int|
        0 <= i < j < post.fields_seq().len() implies #[trigger] post.fields_seq()[i].0
        != #[trigger] post.fields_seq()[j].0 by {
        if j < n {
        } else {
            assert(j == n);
            if pre.fields_seq()[i].0 == key {
                assert(pre.spec_has_field(key));
            }
        }
    }
    lemma_get_at(post, key, n);
    assert forall|k: Seq<char>| k != key implies (post.spec_has_field(k) <==> pre.spec_has_field(
        k,
    )) by {
        if post.spec_has_field(k) {
            let j = choose|j: int|
                0 <= j < post.fields_seq().len() && #[trigger] post.fields_seq()[j].0 == k;
            assert(j < n);
            assert(pre.fields_seq()[j].0 == k);
        }
        if pre.spec_has_field(k) {
            let j = choose|j: int|
                0 <= j < pre.fields_seq().len() && #[trigger] pre.fields_seq()[j].0 == k;
            assert(post.fields_seq()[j].0 == k);
        }
    }
    assert forall|k: Seq<char>| k != key implies post.spec_get(k) == pre.spec_get(k) by {
        if pre.spec_has_field(k) {
            let j = choose|j: int|
                0 <= j < pre.fields_seq().len() && #[trigger] pre.fields_seq()[j].0 == k;
            lemma_get_at(pre, k, j);
            lemma_get_at(post, k, j);
        }
    }
}

} // verus!
