use vstd::prelude::*;

use crate::models::EntityV;
use crate::store::{
    find_entity, has_assoc, lemma_remove_entity_members, matched_authors, matched_books,
    remove_entity, rename_entity,
};

verus! {

/// Round trip: a row created under a fresh id is found by a lookup of that
/// id, carrying exactly the created name.
///
/// `create_book` / `create_author` append a row whose id is the table's
/// next generated id, which well-formedness keeps above every stored id;
/// `get_book_by_id` / `get_author_by_id` return `find_entity`. So creating
/// a name and fetching the returned id yields an entity with that name.
pub proof fn lemma_created_entity_found(s: Seq<EntityV>, id: int, name: Seq<char>)
    requires
        forall|i: int| 0 <= i < s.len() ==> (#[trigger] s[i]).id != id,
    ensures
        find_entity(s.push((EntityV { id, name })), id) == Some((EntityV { id, name })),
{
    let t = s.push(EntityV { id, name });
    assert(t[s.len() as int].id == id);
    let j = choose|i: int| 0 <= i < t.len() && t[i].id == id;
    assert(j == s.len() as int);
}

/// Update idempotence: rewriting a row's name to `name` twice leaves the
/// table exactly as the first rewrite left it.
///
/// `update_book` / `update_author` turn the table into `rename_entity` of
/// it, so a repeated call with the same arguments changes nothing further.
pub proof fn lemma_update_idempotent(s: Seq<EntityV>, id: int, name: Seq<char>)
    ensures
        rename_entity(rename_entity(s, id, name), id, name) == rename_entity(s, id, name),
{
    assert(rename_entity(rename_entity(s, id, name), id, name) =~= rename_entity(s, id, name));
}

/// Delete finality: after the rows carrying `id` are removed, a lookup of
/// `id` finds nothing.
///
/// `delete_book` / `delete_author` turn the table into `remove_entity` of
/// it, and `get_book_by_id` / `get_author_by_id` return `find_entity`, so a
/// fetch after a delete returns the absent value.
pub proof fn lemma_deleted_entity_absent(s: Seq<EntityV>, id: int)
    ensures
        find_entity(remove_entity(s, id), id) is None,
{
    lemma_remove_entity_members(s, id);
}

/// A book no association points at gets an empty author bucket, and the
/// book itself is still listed: `get_all_books_and_authors` keeps every
/// book of the table in its output, so zero-match parents are never
/// dropped.
pub proof fn lemma_no_assoc_no_authors(assocs: Seq<(int, int)>, authors: Seq<EntityV>, book_id: int)
    requires
        forall|a: int| !has_assoc(assocs, book_id, a),
    ensures
        matched_authors(assocs, authors, book_id) == Seq::<EntityV>::empty(),
    decreases authors.len(),
{
    if authors.len() > 0 {
        lemma_no_assoc_no_authors(assocs, authors.drop_last(), book_id);
    }
}

/// The mirror of [`lemma_no_assoc_no_authors`] for an author no
/// association points at.
pub proof fn lemma_no_assoc_no_books(assocs: Seq<(int, int)>, books: Seq<EntityV>, author_id: int)
    requires
        forall|b: int| !has_assoc(assocs, b, author_id),
    ensures
        matched_books(assocs, books, author_id) == Seq::<EntityV>::empty(),
    decreases books.len(),
{
    if books.len() > 0 {
        lemma_no_assoc_no_books(assocs, books.drop_last(), author_id);
    }
}

proof fn lemma_matched_authors_contains(
    assocs: Seq<(int, int)>,
    authors: Seq<EntityV>,
    book_id: int,
    k: int,
)
    requires
        0 <= k < authors.len(),
        has_assoc(assocs, book_id, authors[k].id),
    ensures
        matched_authors(assocs, authors, book_id).contains(authors[k]),
    decreases authors.len(),
{
    let m = matched_authors(assocs, authors, book_id);
    if k == authors.len() - 1 {
        assert(m[m.len() - 1] == authors[k]);
    } else {
        lemma_matched_authors_contains(assocs, authors.drop_last(), book_id, k);
        let rest = matched_authors(assocs, authors.drop_last(), book_id);
        let w = choose|w: int| 0 <= w < rest.len() && rest[w] == authors.drop_last()[k];
        assert(m[w] == authors[k]);
    }
}

proof fn lemma_matched_books_contains(
    assocs: Seq<(int, int)>,
    books: Seq<EntityV>,
    author_id: int,
    k: int,
)
    requires
        0 <= k < books.len(),
        has_assoc(assocs, books[k].id, author_id),
    ensures
        matched_books(assocs, books, author_id).contains(books[k]),
    decreases books.len(),
{
    let m = matched_books(assocs, books, author_id);
    if k == books.len() - 1 {
        assert(m[m.len() - 1] == books[k]);
    } else {
        lemma_matched_books_contains(assocs, books.drop_last(), author_id, k);
        let rest = matched_books(assocs, books.drop_last(), author_id);
        let w = choose|w: int| 0 <= w < rest.len() && rest[w] == books.drop_last()[k];
        assert(m[w] == books[k]);
    }
}

/// Symmetry: for an associated pair, the book stands in the author's book
/// bucket and the author stands in the book's author bucket.
///
/// `get_author_with_books` returns `matched_books` of the author's id and
/// `get_book_with_authors` returns `matched_authors` of the book's id, so
/// each side of an association sees the other.
pub proof fn lemma_association_symmetry(
    assocs: Seq<(int, int)>,
    books: Seq<EntityV>,
    authors: Seq<EntityV>,
    bk: int,
    ak: int,
)
    requires
        0 <= bk < books.len(),
        0 <= ak < authors.len(),
        has_assoc(assocs, books[bk].id, authors[ak].id),
    ensures
        matched_books(assocs, books, authors[ak].id).contains(books[bk]),
        matched_authors(assocs, authors, books[bk].id).contains(authors[ak]),
{
    lemma_matched_books_contains(assocs, books, authors[ak].id, bk);
    lemma_matched_authors_contains(assocs, authors, books[bk].id, ak);
}

/// Association uniqueness: inserting a pair makes that pair present, so a
/// second identical insertion meets the duplicate-pair case of
/// `associate_book_with_author`'s contract and fails with
/// `StoreError::DuplicateAssociation`.
pub proof fn lemma_pair_present_after_insert(
    assocs: Seq<(int, int)>,
    book_id: int,
    author_id: int,
)
    ensures
        has_assoc(assocs.push((book_id, author_id)), book_id, author_id),
{
    assert(assocs.push((book_id, author_id))[assocs.len() as int] == (book_id, author_id));
}

} // verus!
