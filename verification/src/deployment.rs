//! The observable state of a deployment: which database names a listing
//! reports.
//!
//! The server materializes a database only when a document is written into
//! one of its collections; handing out a database or collection handle
//! persists nothing. Dropping a database removes its name from every later
//! listing, and a listing is a pure function of the state, so listing twice
//! with no intervening writes yields identical results.

use vstd::prelude::*;

use crate::document::Document;
use crate::names::contains_name;
use crate::names::name_present;

verus! {

/// A lazy reference to a named logical database; holding one persists
/// nothing on the deployment.
pub struct DatabaseHandle {
    pub name: String,
}

/// A lazy reference to a named collection within a named database.
pub struct CollectionHandle {
    pub db_name: String,
    pub collection_name: String,
}

impl DatabaseHandle {
    /// A lazy handle to a named collection of this database.
    pub fn collection(&self, name: &str) -> (c: CollectionHandle)
        ensures
            c.db_name@ == self.name@,
            c.collection_name@ == name@,
    {
        CollectionHandle { db_name: self.name.clone(), collection_name: String::from_str(name) }
    }
}

/// A deployment as its listings observe it: the set of database names that
/// have been materialized, kept in server order.
pub struct Deployment {
    names: Vec<String>,
}

impl Deployment {
    /// The names a listing reports, in server order.
    pub closed spec fn listing(self) -> Seq<Seq<char>> {
        self.names@.map_values(|s: String| s@)
    }

    /// Whether `name` appears in a listing of this deployment.
    pub open spec fn listed(self, name: Seq<char>) -> bool {
        self.listing().contains(name)
    }

    /// A listing never repeats a name.
    pub open spec fn wf(self) -> bool {
        forall|i: int, j: int|
            0 <= i < j < self.listing().len() ==> #[trigger] self.listing()[i]
                != #[trigger] self.listing()[j]
    }

    /// A freshly provisioned deployment lists exactly the server's own
    /// baseline databases `admin`, `config` and `local`, in that order.
    pub fn fresh() -> (d: Deployment)
        ensures
            d.wf(),
            d.listing() == seq!["admin"@, "config"@, "local"@],
    {
        let mut names: Vec<String> = Vec::new();
        names.push(String::from_str("admin"));
        names.push(String::from_str("config"));
        names.push(String::from_str("local"));
        let d = Deployment { names };
        proof {
            reveal_strlit("admin");
            reveal_strlit("config");
            reveal_strlit("local");
            assert(d.listing() =~= seq!["admin"@, "config"@, "local"@]);
            assert("admin"@.len() == 5 && "config"@.len() == 6 && "local"@.len() == 5);
            assert("admin"@[0] == 'a' && "local"@[0] == 'l');
        }
        d
    }

    /// The listing itself, as the names of the databases in server order.
    pub fn list_database_names(&self) -> (r: Vec<String>)
        ensures
            r@.len() == self.listing().len(),
            forall|i: int| 0 <= i < r@.len() ==> #[trigger] r@[i]@ == self.listing()[i],
    {
        let mut out: Vec<String> = Vec::new();
        let mut i: usize = 0;
        while i < self.names.len()
            invariant
                i <= self.names.len(),
                out@.len() == i,
                forall|j: int| 0 <= j < i ==> #[trigger] out@[j]@ == self.names@[j]@,
            decreases self.names.len() - i,
        {
            let s = &self.names[i];
            out.push(s.clone());
            i = i + 1;
        }
        out
    }

    /// Check-before-create: a handle scoped to `name` comes back exactly
    /// when the name is absent from the listing; an already listed name
    /// yields nothing. The deployment itself is untouched, so a listing
    /// taken before any write still lacks the name of a fresh handle.
    pub fn create_database(&self, name: &str) -> (r: Option<DatabaseHandle>)
        ensures
            r is Some <==> !self.listed(name@),
            r matches Some(h) ==> h.name@ == name@,
    {
        proof {
            lemma_listed_iff_present(*self, name@);
        }
        if !contains_name(&self.names, name) {
            Some(DatabaseHandle { name: String::from_str(name) })
        } else {
            None
        }
    }

    /// Writing documents materializes the target's database: once at least
    /// one document is inserted, the database's name joins the listing and
    /// every other name is as it was. With nothing to write, the listing is
    /// unchanged.
    pub fn insert_many(&mut self, target: &CollectionHandle, docs: &Vec<Document>)
        requires
            old(self).wf(),
        ensures
            final(self).wf(),
            docs@.len() > 0 ==> final(self).listed(target.db_name@),
            docs@.len() > 0 ==> forall|n: Seq<char>|
                final(self).listed(n) <==> (old(self).listed(n) || n == target.db_name@),
            docs@.len() > 0 && !old(self).listed(target.db_name@) ==> final(self).listing()
                == old(self).listing().push(target.db_name@),
            docs@.len() == 0 || old(self).listed(target.db_name@) ==> final(self).listing()
                == old(self).listing(),
    {
        if docs.len() > 0 {
            proof {
                lemma_listed_iff_present(*self, target.db_name@);
            }
            if !contains_name(&self.names, target.db_name.as_str()) {
                let ghost pre = *self;
                self.names.push(target.db_name.clone());
                proof {
                    assert(self.listing() =~= pre.listing().push(target.db_name@));
                    lemma_push_fresh(pre, *self, target.db_name@);
                }
            }
        }
    }

    /// Dropping a database removes exactly its name: it is absent from
    /// every later listing, and every other name is as it was.
    pub fn drop_database(&mut self, name: &str)
        requires
            old(self).wf(),
        ensures
            final(self).wf(),
            !final(self).listed(name@),
            forall|n: Seq<char>|
                final(self).listed(n) <==> (old(self).listed(n) && n != name@),
            !old(self).listed(name@) ==> final(self).listing() == old(self).listing(),
    {
        let needle = String::from_str(name);
        let mut i: usize = 0;
        while i < self.names.len()
            invariant
                *self == *old(self),
                old(self).wf(),
                i <= self.names.len(),
                needle@ == name@,
                forall|j: int| 0 <= j < i ==> (#[trigger] self.names@[j])@ != name@,
            decreases self.names.len() - i,
        {
            if self.names[i] == needle {
                let ghost pre = *old(self);
                proof {
                    assert(pre.names@[i as int]@ == name@);
                    lemma_listed_iff_present(pre, name@);
                }
                self.names.remove(i);
                proof {
                    lemma_remove_listed(pre, *self, name@, i as int);
                }
                return ;
            }
            i = i + 1;
        }
        proof {
            assert forall|n: Seq<char>|
                self.listed(n) <==> (old(self).listed(n) && n != name@) by {
                lemma_listed_iff_present(*self, n);
                if name_present(self.names@, n) && n == name@ {
                    let j = choose|j: int| 0 <= j < self.names@.len() && self.names@[j]@ == n;
                }
            }
        }
    }
}

/// Removing the one position that holds a name removes exactly that name
/// from the listing.
proof fn lemma_remove_listed(pre: Deployment, post: Deployment, n: Seq<char>, i: int)
    requires
        pre.wf(),
        0 <= i < pre.names@.len(),
        pre.names@[i]@ == n,
        post.names@ == pre.names@.remove(i),
    ensures
        post.wf(),
        !post.listed(n),
        forall|m: Seq<char>| post.listed(m) <==> (pre.listed(m) && m != n),
{
    lemma_distinct_names(pre);
    let len = pre.names@.len() as int;
    assert(post.names@.len() == len - 1);
    assert(forall|j: int| 0 <= j < i ==> post.names@[j] == pre.names@[j]);
    assert(forall|j: int| i <= j < len - 1 ==> post.names@[j] == pre.names@[j + 1]);
    assert forall|a: int, b: int|
        0 <= a < b < post.listing().len() implies #[trigger] post.listing()[a]
        != #[trigger] post.listing()[b] by {
        let pa: int = if a < i { a } else { a + 1 };
        let pb: int = if b < i { b } else { b + 1 };
        assert(post.names@[a] == pre.names@[pa] && post.names@[b] == pre.names@[pb]);
        assert(pre.names@[pa]@ != pre.names@[pb]@);
    }
    assert forall|m: Seq<char>| post.listed(m) <==> (pre.listed(m) && m != n) by {
        lemma_listed_iff_present(post, m);
        lemma_listed_iff_present(pre, m);
        if name_present(post.names@, m) {
            let j = choose|j: int| 0 <= j < post.names@.len() && post.names@[j]@ == m;
            let pj: int = if j < i { j } else { j + 1 };
            assert(pre.names@[pj]@ == m);
            assert(pj != i);
            if m == n {
                assert(pre.names@[pj]@ == pre.names@[i]@);
                assert(false);
            }
        }
        if name_present(pre.names@, m) && m != n {
            let k = choose|k: int| 0 <= k < pre.names@.len() && pre.names@[k]@ == m;
            assert(k != i);
            let pk: int = if k < i { k } else { k - 1 };
            assert(post.names@[pk]@ == m);
        }
    }
    assert(!post.listed(n)) by {
        lemma_listed_iff_present(post, n);
        if name_present(post.names@, n) {
            let j = choose|j: int| 0 <= j < post.names@.len() && post.names@[j]@ == n;
            let pj: int = if j < i { j } else { j + 1 };
            assert(pre.names@[pj]@ == pre.names@[i]@);
            assert(false);
        }
    }
}

/// A name stands in the listing exactly when some entry of the name vector
/// has its characters.
proof fn lemma_listed_iff_present(d: Deployment, n: Seq<char>)
    ensures
        d.listed(n) <==> name_present(d.names@, n),
{
    if name_present(d.names@, n) {
        let i = choose|i: int| 0 <= i < d.names@.len() && d.names@[i]@ == n;
        assert(d.listing()[i] == n);
    }
    if d.listed(n) {
        let i = choose|i: int| 0 <= i < d.listing().len() && d.listing()[i] == n;
        assert(d.names@[i]@ == n);
    }
}

/// In a well-formed deployment the name vector's views are pairwise
/// distinct.
proof fn lemma_distinct_names(d: Deployment)
    requires
        d.wf(),
    ensures
        forall|k1: int, k2: int|
            0 <= k1 < k2 < d.names@.len() ==> #[trigger] d.names@[k1]@ != #[trigger] d.names@[k2]@,
{
    assert forall|k1: int, k2: int|
        0 <= k1 < k2 < d.names@.len() implies #[trigger] d.names@[k1]@
        != #[trigger] d.names@[k2]@ by {
        assert(d.listing()[k1] != d.listing()[k2]);
    }
}

/// Appending a fresh name extends the listing by exactly that name.
proof fn lemma_push_fresh(pre: Deployment, post: Deployment, n: Seq<char>)
    requires
        pre.wf(),
        !pre.listed(n),
        post.listing() == pre.listing().push(n),
    ensures
        post.wf(),
        post.listed(n),
        forall|m: Seq<char>| post.listed(m) <==> (pre.listed(m) || m == n),
{
    let len = pre.listing().len() as int;
    assert(post.listing()[len] == n);
    assert(post.listed(n));
    assert forall|i: int, j: int|
        0 <= i < j < post.listing().len() implies #[trigger] post.listing()[i]
        != #[trigger] post.listing()[j] by {
        if j < len {
            assert(pre.listing()[i] != pre.listing()[j]);
        } else {
            assert(j == len);
            if pre.listing()[i] == n {
                assert(pre.listed(n));
            }
        }
    }
    assert forall|m: Seq<char>| post.listed(m) <==> (pre.listed(m) || m == n) by {
        if post.listed(m) {
            let i = choose|i: int| 0 <= i < post.listing().len() && post.listing()[i] == m;
            if i < len {
                assert(pre.listing()[i] == m);
            }
        }
        if pre.listed(m) {
            let i = choose|i: int| 0 <= i < pre.listing().len() && pre.listing()[i] == m;
            assert(post.listing()[i] == m);
        }
    }
}

/// Listing databases twice in a row with no intervening writes yields
/// identical listings: a listing is a pure function of the deployment
/// state.
pub proof fn lemma_listing_idempotent(d: Deployment, r1: Seq<Seq<char>>, r2: Seq<Seq<char>>)
    requires
        r1 == d.listing(),
        r2 == d.listing(),
    ensures
        r1 == r2,
{
}

/// Order-insensitive reading of a fresh deployment's listing: a name is
/// listed exactly when it is one of `admin`, `config`, `local`.
pub proof fn lemma_fresh_baseline(d: Deployment)
    requires
        d.listing() == seq!["admin"@, "config"@, "local"@],
    ensures
        forall|n: Seq<char>|
            d.listed(n) <==> (n == "admin"@ || n == "config"@ || n == "local"@),
{
    assert forall|n: Seq<char>|
        d.listed(n) <==> (n == "admin"@ || n == "config"@ || n == "local"@) by {
        if d.listed(n) {
            let i = choose|i: int| 0 <= i < d.listing().len() && d.listing()[i] == n;
        }
        if n == "admin"@ {
            assert(d.listing()[0] == n);
        }
        if n == "config"@ {
            assert(d.listing()[1] == n);
        }
        if n == "local"@ {
            assert(d.listing()[2] == n);
        }
    }
}

} // verus!
