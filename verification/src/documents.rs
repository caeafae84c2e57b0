//! The document store behind a running server.

use crate::document::Document;
use crate::text::same_text;
use vstd::prelude::*;

verus! {

/// The document store behind a running server: URI -> parsed document.
#[verifier::reject_recursive_types(C)]
#[derive(Debug)]
pub struct Documents<C> {
    open: Vec<Document<C>>,
}

/// Where the document named `uri` stands among `open`, or past the end.
spec fn place<C>(open: Seq<Document<C>>, uri: Seq<char>) -> int
    decreases open.len(),
{
    if open.len() == 0 {
        0
    } else if open[0].name() == uri {
        0
    } else {
        1 + place(open.skip(1), uri)
    }
}

/// No two of the documents have the same name.
spec fn distinct<C>(open: Seq<Document<C>>) -> bool {
    forall|i: int, j: int| 0 <= i < j < open.len() ==> open[i].name() != open[j].name()
}

/// `place` finds the first document of that name.
proof fn lemma_place<C>(open: Seq<Document<C>>, uri: Seq<char>)
    ensures
        0 <= place(open, uri) <= open.len(),
        place(open, uri) < open.len() ==> open[place(open, uri)].name() == uri,
        forall|i: int| 0 <= i < place(open, uri) ==> (#[trigger] open[i]).name() != uri,
    decreases open.len(),
{
    if open.len() > 0 && open[0].name() != uri {
        lemma_place(open.skip(1), uri);
        assert forall|i: int| 0 <= i < place(open, uri) implies (#[trigger] open[i]).name()
            != uri by {
            if i > 0 {
                assert(open.skip(1)[i - 1] == open[i]);
            }
        }
    }
}

/// A document of that name is the one that `place` finds.
proof fn lemma_placed<C>(open: Seq<Document<C>>, uri: Seq<char>, i: int)
    requires
        distinct(open),
        0 <= i < open.len(),
        open[i].name() == uri,
    ensures
        place(open, uri) == i,
{
    lemma_place(open, uri);
}

impl<C> View for Documents<C> {
    type V = Map<Seq<char>, Document<C>>;

    closed spec fn view(&self) -> Map<Seq<char>, Document<C>> {
        Map::new(
            |uri: Seq<char>| place(self.open@, uri) < self.open@.len(),
            |uri: Seq<char>| self.open@[place(self.open@, uri)],
        )
    }
}

impl<C> Documents<C> {
    /// The invariant: every document stands under its own name, once, and is
    /// fit to be handed to a language.
    pub closed spec fn wf(&self) -> bool {
        &&& distinct(self.open@)
        &&& forall|i: int| 0 <= i < self.open@.len() ==> (#[trigger] self.open@[i]).presentable()
    }

    /// Every stored document has the name it is stored under and is fit to be
    /// handed to a language.
    pub proof fn law_stored_under_own_name(&self, uri: Seq<char>)
        requires
            self.wf(),
            self@.contains_key(uri),
        ensures
            self@[uri].name() == uri,
            self@[uri].presentable(),
    {
        lemma_place(self.open@, uri);
    }

    /// Creates an empty store.
    pub fn new() -> (documents: Self)
        ensures
            documents.wf(),
            documents@ == Map::<Seq<char>, Document<C>>::empty(),
    {
        let documents = Documents { open: Vec::new() };
        assert(documents@ =~= Map::<Seq<char>, Document<C>>::empty());
        documents
    }
}

impl<C: Clone + PartialEq + Send + 'static> Documents<C> {
    /// Where the document named `uri` stands, if it is open.
    fn find(&self, uri: &str) -> (found: Option<usize>)
        requires
            self.wf(),
        ensures
            match found {
                Some(i) => i == place(self.open@, uri@) && i < self.open@.len(),
                None => place(self.open@, uri@) == self.open@.len(),
            },
    {
        proof {
            lemma_place(self.open@, uri@);
        }
        let mut i: usize = 0;
        while i < self.open.len()
            invariant
                self.wf(),
                i <= self.open@.len(),
                forall|k: int| 0 <= k < i ==> (#[trigger] self.open@[k]).name() != uri@,
            decreases self.open.len() - i,
        {
            if same_text(self.open[i].uri(), uri) {
                proof {
                    lemma_placed(self.open@, uri@, i as int);
                }
                return Some(i);
            }
            i = i + 1;
        }
        proof {
            lemma_place(self.open@, uri@);
        }
        None
    }

    /// The document named `uri`, if it is open.
    pub fn get(&self, uri: &str) -> (found: Option<&Document<C>>)
        requires
            self.wf(),
        ensures
            match found {
                Some(doc) => self@.contains_key(uri@) && *doc == self@[uri@] && doc.presentable()
                    && doc.name() == uri@,
                None => !self@.contains_key(uri@),
            },
    {
        match self.find(uri) {
            Some(i) => {
                proof {
                    lemma_place(self.open@, uri@);
                }
                Some(&self.open[i])
            },
            None => None,
        }
    }

    /// Takes the document named `uri` out of the store.
    pub fn remove(&mut self, uri: &str) -> (removed: Option<Document<C>>)
        requires
            old(self).wf(),
        ensures
            final(self).wf(),
            final(self)@ == old(self)@.remove(uri@),
            match removed {
                Some(doc) => old(self)@.contains_key(uri@) && doc == old(self)@[uri@]
                    && doc.presentable() && doc.name() == uri@,
                None => !old(self)@.contains_key(uri@),
            },
    {
        match self.find(uri) {
            Some(i) => {
                let ghost before = self.open@;
                proof {
                    lemma_place(before, uri@);
                }
                let doc = self.open.remove(i);
                proof {
                    lemma_removed(before, self.open@, i as int);
                    assert(self@ =~= old(self)@.remove(uri@));
                }
                Some(doc)
            },
            None => {
                assert(self@ =~= old(self)@.remove(uri@));
                None
            },
        }
    }

    /// Stores `doc` under its name, in place of a document stored there.
    pub fn insert(&mut self, doc: Document<C>)
        requires
            old(self).wf(),
            doc.presentable(),
        ensures
            final(self).wf(),
            final(self)@ == old(self)@.insert(doc.name(), doc),
    {
        let ghost uri = doc.name();
        let _ = self.remove(doc.uri());
        let ghost before = self.open@;
        let ghost emptied = self@;
        self.open.push(doc);
        proof {
            lemma_place(before, uri);
            assert(!emptied.contains_key(uri));
            lemma_pushed(before, doc);
            assert(self.open@ == before.push(doc));
            assert forall|key: Seq<char>| #[trigger] self@.contains_key(key) == emptied.insert(
                uri,
                doc,
            ).contains_key(key) && (self@.contains_key(key) ==> self@[key] == emptied.insert(
                uri,
                doc,
            )[key]) by {
                lemma_place(before, key);
                lemma_place(before.push(doc), key);
            }
            assert(self@ =~= emptied.insert(uri, doc));
            assert(self@ =~= old(self)@.insert(uri, doc));
        }
    }
}

/// What taking document `i` out does to the places of the others.
proof fn lemma_removed<C>(before: Seq<Document<C>>, after: Seq<Document<C>>, i: int)
    requires
        distinct(before),
        0 <= i < before.len(),
        after == before.remove(i),
    ensures
        distinct(after),
        place(after, before[i].name()) == after.len(),
        forall|uri: Seq<char>|
            uri != before[i].name() ==> {
                &&& #[trigger] place(after, uri) < after.len() <==> place(before, uri)
                    < before.len()
                &&& place(after, uri) < after.len() ==> after[place(after, uri)]
                    == before[place(before, uri)]
            },
{
    assert forall|j: int, k: int| 0 <= j < k < after.len() implies after[j].name()
        != after[k].name() by {
        let jj = if j < i { j } else { j + 1 };
        let kk = if k < i { k } else { k + 1 };
        assert(after[j] == before[jj] && after[k] == before[kk]);
    }
    lemma_place(after, before[i].name());
    let p = place(after, before[i].name());
    if p < after.len() {
        let q = if p < i { p } else { p + 1 };
        assert(after[p] == before[q]);
        assert(false);
    }
    assert forall|uri: Seq<char>| uri != before[i].name() implies {
        &&& #[trigger] place(after, uri) < after.len() <==> place(before, uri) < before.len()
        &&& place(after, uri) < after.len() ==> after[place(after, uri)] == before[place(
            before,
            uri,
        )]
    } by {
        lemma_place(after, uri);
        lemma_place(before, uri);
        let a = place(after, uri);
        let b = place(before, uri);
        if a < after.len() {
            let q = if a < i { a } else { a + 1 };
            assert(after[a] == before[q]);
            lemma_placed(before, uri, q);
        }
        if b < before.len() {
            let q = if b < i { b } else { b - 1 };
            assert(after[q] == before[b]);
            lemma_placed(after, uri, q);
        }
    }
}

/// What adding a document of a new name does to the places of the others.
proof fn lemma_pushed<C>(before: Seq<Document<C>>, doc: Document<C>)
    requires
        distinct(before),
        place(before, doc.name()) == before.len(),
    ensures
        distinct(before.push(doc)),
        place(before.push(doc), doc.name()) == before.len(),
        forall|uri: Seq<char>|
            uri != doc.name() ==> {
                &&& #[trigger] place(before.push(doc), uri) < before.len() + 1 <==> place(
                    before,
                    uri,
                ) < before.len()
                &&& place(before, uri) < before.len() ==> place(before.push(doc), uri) == place(
                    before,
                    uri,
                )
            },
{
    let after = before.push(doc);
    lemma_place(before, doc.name());
    assert forall|i: int, j: int| 0 <= i < j < after.len() implies after[i].name()
        != after[j].name() by {
        assert(after[i] == before[i]);
        if j < before.len() {
            assert(after[j] == before[j]);
        }
    }
    lemma_placed(after, doc.name(), before.len() as int);
    assert forall|uri: Seq<char>| uri != doc.name() implies {
        &&& #[trigger] place(after, uri) < before.len() + 1 <==> place(before, uri) < before.len()
        &&& place(before, uri) < before.len() ==> place(after, uri) == place(before, uri)
    } by {
        lemma_place(after, uri);
        lemma_place(before, uri);
        if place(before, uri) < before.len() {
            assert(after[place(before, uri)] == before[place(before, uri)]);
            lemma_placed(after, uri, place(before, uri));
        }
        if place(after, uri) < after.len() {
            assert(place(after, uri) < before.len());
            assert(after[place(after, uri)] == before[place(after, uri)]);
            lemma_placed(before, uri, place(after, uri));
        }
    }
}

} // verus!
