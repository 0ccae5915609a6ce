use vstd::prelude::*;

use crate::models::{assoc_views, author_views, book_views, Author, Book, BookAuthor, EntityV};

verus! {

/// A query or statement failure, annotated with what was being attempted.
/// "Not found" on a read is never an error: reads model it as an absent
/// value. The failures below are the constraint violations the store
/// enforces on writes to the association table.
#[derive(Debug, Clone, Copy, PartialEq, Eq, Structural)]
pub enum StoreError {
    /// The association references a book id that is not in the store
    /// (foreign-key violation).
    MissingBook { book_id: i32 },
    /// The association references an author id that is not in the store
    /// (foreign-key violation).
    MissingAuthor { author_id: i32 },
    /// The (book, author) pair is already associated (primary-key violation
    /// on the composite key).
    DuplicateAssociation { book_id: i32, author_id: i32 },
}

/// The catalogue state: two independent entity tables and the join table
/// between them, together with the next identifier each table will generate.
///
/// Every store and aggregator operation takes the catalogue as an explicit
/// parameter rather than reading ambient state.
pub struct Catalog {
    pub books: Vec<Book>,
    pub authors: Vec<Author>,
    pub associations: Vec<BookAuthor>,
    pub next_book_id: i32,
    pub next_author_id: i32,
}

/// Whether some row of `s` carries the identifier `id`.
pub open spec fn has_entity(s: Seq<EntityV>, id: int) -> bool {
    exists|i: int| 0 <= i < s.len() && s[i].id == id
}

/// The row of `s` carrying the identifier `id` (meaningful when ids are
/// unique and `has_entity` holds).
pub open spec fn entity_with_id(s: Seq<EntityV>, id: int) -> EntityV {
    s[choose|i: int| 0 <= i < s.len() && s[i].id == id]
}

/// What a lookup by id returns: the row when present, nothing otherwise.
pub open spec fn find_entity(s: Seq<EntityV>, id: int) -> Option<EntityV> {
    if has_entity(s, id) {
        Some(entity_with_id(s, id))
    } else {
        None
    }
}

/// Every row of `s` whose id is `id` renamed to `name`; all other rows, and
/// the order, kept as they are.
pub open spec fn rename_entity(s: Seq<EntityV>, id: int, name: Seq<char>) -> Seq<EntityV> {
    s.map_values(|e: EntityV| if e.id == id { EntityV { id: e.id, name } } else { e })
}

/// `s` without the rows whose id is `id`; the order of the rest kept.
pub open spec fn remove_entity(s: Seq<EntityV>, id: int) -> Seq<EntityV>
    decreases s.len(),
{
    if s.len() == 0 {
        s
    } else {
        let rest = remove_entity(s.drop_last(), id);
        if s.last().id == id {
            rest
        } else {
            rest.push(s.last())
        }
    }
}

/// Whether the pair (book id, author id) is associated.
pub open spec fn has_assoc(assocs: Seq<(int, int)>, book_id: int, author_id: int) -> bool {
    assocs.contains((book_id, author_id))
}

/// The authors associated with the book `book_id`, in the order they stand
/// in `authors`.
pub open spec fn matched_authors(
    assocs: Seq<(int, int)>,
    authors: Seq<EntityV>,
    book_id: int,
) -> Seq<EntityV>
    decreases authors.len(),
{
    if authors.len() == 0 {
        Seq::empty()
    } else {
        let rest = matched_authors(assocs, authors.drop_last(), book_id);
        if has_assoc(assocs, book_id, authors.last().id) {
            rest.push(authors.last())
        } else {
            rest
        }
    }
}

/// The books associated with the author `author_id`, in the order they stand
/// in `books`.
pub open spec fn matched_books(
    assocs: Seq<(int, int)>,
    books: Seq<EntityV>,
    author_id: int,
) -> Seq<EntityV>
    decreases books.len(),
{
    if books.len() == 0 {
        Seq::empty()
    } else {
        let rest = matched_books(assocs, books.drop_last(), author_id);
        if has_assoc(assocs, books.last().id, author_id) {
            rest.push(books.last())
        } else {
            rest
        }
    }
}

impl Catalog {
    /// The book table as a sequence of views.
    pub open spec fn book_views(self) -> Seq<EntityV> {
        book_views(self.books@)
    }

    /// The author table as a sequence of views.
    pub open spec fn author_views(self) -> Seq<EntityV> {
        author_views(self.authors@)
    }

    /// The join table as a sequence of (book id, author id) pairs.
    pub open spec fn assoc_views(self) -> Seq<(int, int)> {
        assoc_views(self.associations@)
    }

    /// Well-formedness: identifiers are generated, so every stored id is
    /// positive, below the next id its table will generate, and unique
    /// within its table; the composite key of the join table is unique.
    /// Associations may dangle: deleting an entity does not cascade.
    pub open spec fn wf(self) -> bool {
        &&& 1 <= self.next_book_id
        &&& 1 <= self.next_author_id
        &&& forall|i: int|
            0 <= i < self.books@.len() ==> 1 <= (#[trigger] self.books@[i]).id
                < self.next_book_id
        &&& forall|i: int, j: int|
            #![trigger self.books@[i], self.books@[j]]
            0 <= i < j < self.books@.len() ==> self.books@[i].id != self.books@[j].id
        &&& forall|i: int|
            0 <= i < self.authors@.len() ==> 1 <= (#[trigger] self.authors@[i]).id
                < self.next_author_id
        &&& forall|i: int, j: int|
            #![trigger self.authors@[i], self.authors@[j]]
            0 <= i < j < self.authors@.len() ==> self.authors@[i].id != self.authors@[j].id
        &&& forall|i: int, j: int|
            #![trigger self.associations@[i], self.associations@[j]]
            0 <= i < j < self.associations@.len() ==> self.associations@[i]@
                != self.associations@[j]@
    }

    /// The index of the book row carrying `id`, if any.
    pub(crate) fn book_index(&self, id: i32) -> (r: Option<usize>)
        ensures
            match r {
                Some(i) => i < self.books@.len() && self.books@[i as int].id == id,
                None => !has_entity(self.book_views(), id as int),
            },
    {
        let mut i: usize = 0;
        while i < self.books.len()
            invariant
                i <= self.books@.len(),
                forall|k: int| 0 <= k < i ==> (#[trigger] self.books@[k]).id != id,
            decreases self.books@.len() - i,
        {
            if self.books[i].id == id {
                return Some(i);
            }
            i = i + 1;
        }
        None
    }

    /// The index of the author row carrying `id`, if any.
    pub(crate) fn author_index(&self, id: i32) -> (r: Option<usize>)
        ensures
            match r {
                Some(i) => i < self.authors@.len() && self.authors@[i as int].id == id,
                None => !has_entity(self.author_views(), id as int),
            },
    {
        let mut i: usize = 0;
        while i < self.authors.len()
            invariant
                i <= self.authors@.len(),
                forall|k: int| 0 <= k < i ==> (#[trigger] self.authors@[k]).id != id,
            decreases self.authors@.len() - i,
        {
            if self.authors[i].id == id {
                return Some(i);
            }
            i = i + 1;
        }
        None
    }

    /// An empty catalogue, about to generate 1 as the first id of each table.
    pub fn new() -> (c: Catalog)
        ensures
            c.wf(),
            c.book_views() =~= Seq::<EntityV>::empty(),
            c.author_views() =~= Seq::<EntityV>::empty(),
            c.assoc_views() =~= Seq::<(int, int)>::empty(),
            c.next_book_id == 1,
            c.next_author_id == 1,
    {
        Catalog {
            books: Vec::new(),
            authors: Vec::new(),
            associations: Vec::new(),
            next_book_id: 1,
            next_author_id: 1,
        }
    }
}

/// Every row of `remove_entity(s, id)` is a row of `s`, none of them
/// carries `id`, and the result is no longer than `s`.
pub proof fn lemma_remove_entity_members(s: Seq<EntityV>, id: int)
    ensures
        remove_entity(s, id).len() <= s.len(),
        forall|k: int|
            0 <= k < remove_entity(s, id).len() ==> (#[trigger] remove_entity(s, id)[k]).id != id,
        forall|k: int|
            0 <= k < remove_entity(s, id).len() ==> exists|w: int|
                0 <= w < s.len() && s[w] == #[trigger] remove_entity(s, id)[k],
    decreases s.len(),
{
    if s.len() == 0 {
    } else {
        lemma_remove_entity_members(s.drop_last(), id);
        let rest = remove_entity(s.drop_last(), id);
        let r = remove_entity(s, id);
        assert forall|k: int| 0 <= k < r.len() implies exists|w: int|
            0 <= w < s.len() && s[w] == #[trigger] r[k] by {
            if k < rest.len() {
                let w = choose|w: int|
                    0 <= w < s.drop_last().len() && s.drop_last()[w] == rest[k];
                assert(s[w] == r[k]);
            } else {
                assert(s[s.len() - 1] == r[k]);
            }
        }
    }
}

/// If the ids of `s` are pairwise distinct, so are the ids of
/// `remove_entity(s, id)`.
pub proof fn lemma_remove_entity_unique_ids(s: Seq<EntityV>, id: int)
    requires
        forall|i: int, j: int|
            #![trigger s[i], s[j]]
            0 <= i < j < s.len() ==> s[i].id != s[j].id,
    ensures
        forall|k1: int, k2: int|
            #![trigger remove_entity(s, id)[k1], remove_entity(s, id)[k2]]
            0 <= k1 < k2 < remove_entity(s, id).len() ==> remove_entity(s, id)[k1].id
                != remove_entity(s, id)[k2].id,
    decreases s.len(),
{
    if s.len() == 0 {
    } else {
        lemma_remove_entity_unique_ids(s.drop_last(), id);
        lemma_remove_entity_members(s.drop_last(), id);
        let rest = remove_entity(s.drop_last(), id);
        let r = remove_entity(s, id);
        if s.last().id != id {
            assert forall|k1: int, k2: int|
                0 <= k1 < k2 < r.len() implies r[k1].id != r[k2].id by {
                if k2 == r.len() - 1 {
                    let w = choose|w: int|
                        0 <= w < s.drop_last().len() && s.drop_last()[w] == rest[k1];
                    assert(s[w].id != s[s.len() - 1].id);
                }
            }
        }
    }
}

/// Whether the join table holds the row (book_id, author_id).
pub(crate) fn has_pair(associations: &Vec<BookAuthor>, book_id: i32, author_id: i32) -> (r: bool)
    ensures
        r == has_assoc(assoc_views(associations@), book_id as int, author_id as int),
{
    let mut i: usize = 0;
    while i < associations.len()
        invariant
            i <= associations@.len(),
            forall|k: int|
                0 <= k < i ==> (#[trigger] associations@[k])@ != (book_id as int, author_id as int),
        decreases associations@.len() - i,
    {
        if associations[i].book_id == book_id && associations[i].author_id == author_id {
            proof {
                assert(assoc_views(associations@)[i as int] == (book_id as int, author_id as int));
            }
            return true;
        }
        i = i + 1;
    }
    proof {
        assert forall|k: int| 0 <= k < assoc_views(associations@).len() implies assoc_views(
            associations@,
        )[k] != (book_id as int, author_id as int) by {
            assert(associations@[k]@ != (book_id as int, author_id as int));
        }
    }
    false
}

} // verus!
