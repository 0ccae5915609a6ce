use vstd::prelude::*;

use crate::models::{Book, EntityV, NewBook};
use crate::store::{
    find_entity, lemma_remove_entity_members, lemma_remove_entity_unique_ids, remove_entity,
    rename_entity, Catalog, StoreError,
};

verus! {

/// The view of an optional book row.
pub open spec fn opt_book_view(o: Option<Book>) -> Option<EntityV> {
    match o {
        Some(b) => Some(b@),
        None => None,
    }
}

/// Inserts a new book row and returns the identifier the store generated
/// for it. The new row is appended to the table; nothing else changes.
pub fn create_book(name: &str, connection: &mut Catalog) -> (result: Result<i32, StoreError>)
    requires
        old(connection).wf(),
        old(connection).next_book_id < i32::MAX,
    ensures
        final(connection).wf(),
        result matches Ok(id) && id == old(connection).next_book_id,
        final(connection).book_views() == old(connection).book_views().push(
            (EntityV { id: old(connection).next_book_id as int, name: name@ }),
        ),
        final(connection).authors@ == old(connection).authors@,
        final(connection).associations@ == old(connection).associations@,
        final(connection).next_book_id == old(connection).next_book_id + 1,
        final(connection).next_author_id == old(connection).next_author_id,
{
    let new_book = NewBook { name: name.to_owned() };
    let created_id = connection.next_book_id;
    connection.books.push(Book { id: created_id, name: new_book.name });
    connection.next_book_id = created_id + 1;
    proof {
        assert(connection.book_views() =~= old(connection).book_views().push(
            (EntityV { id: created_id as int, name: name@ }),
        ));
    }
    Ok(created_id)
}

/// Returns every book row, in table order.
pub fn get_all_books(connection: &mut Catalog) -> (result: Result<Vec<Book>, StoreError>)
    ensures
        *final(connection) == *old(connection),
        result matches Ok(v) && v@ == old(connection).books@,
{
    let mut out: Vec<Book> = Vec::new();
    let mut i: usize = 0;
    while i < connection.books.len()
        invariant
            *connection == *old(connection),
            i <= connection.books@.len(),
            out@ =~= connection.books@.subrange(0, i as int),
        decreases connection.books@.len() - i,
    {
        out.push(connection.books[i].clone());
        i = i + 1;
    }
    proof {
        assert(out@ =~= connection.books@);
    }
    Ok(out)
}

/// Looks a book up by id. An absent row is a valid outcome, returned as
/// `None`, never as an error.
pub fn get_book_by_id(id: i32, connection: &mut Catalog) -> (result: Result<
    Option<Book>,
    StoreError,
>)
    requires
        old(connection).wf(),
    ensures
        *final(connection) == *old(connection),
        result matches Ok(r) && opt_book_view(r) == find_entity(
            old(connection).book_views(),
            id as int,
        ),
{
    match connection.book_index(id) {
        Some(i) => {
            let found = connection.books[i].clone();
            proof {
                let vs = connection.book_views();
                assert(vs[i as int].id == id as int);
                let j = choose|k: int| 0 <= k < vs.len() && vs[k].id == id as int;
                assert(connection.books@[j].id == connection.books@[i as int].id);
                assert(j == i as int);
            }
            Ok(Some(found))
        },
        None => Ok(None),
    }
}

/// Rewrites the name of the book with this id; a no-op, not an error, if no
/// such row exists ("zero rows affected").
pub fn update_book(id: i32, new_name: &str, connection: &mut Catalog) -> (result: Result<
    (),
    StoreError,
>)
    requires
        old(connection).wf(),
    ensures
        final(connection).wf(),
        result is Ok,
        final(connection).book_views() == rename_entity(
            old(connection).book_views(),
            id as int,
            new_name@,
        ),
        final(connection).authors@ == old(connection).authors@,
        final(connection).associations@ == old(connection).associations@,
        final(connection).next_book_id == old(connection).next_book_id,
        final(connection).next_author_id == old(connection).next_author_id,
{
    let mut i: usize = 0;
    while i < connection.books.len()
        invariant
            i <= connection.books@.len(),
            connection.books@.len() == old(connection).books@.len(),
            forall|k: int|
                i <= k < connection.books@.len() ==> (#[trigger] connection.books@[k]) == old(
                    connection,
                ).books@[k],
            forall|k: int|
                0 <= k < i ==> (#[trigger] connection.books@[k])@ == (if old(
                    connection,
                ).books@[k].id == id {
                    (EntityV { id: id as int, name: new_name@ })
                } else {
                    old(connection).books@[k]@
                }),
            forall|k: int|
                0 <= k < i ==> (#[trigger] connection.books@[k]).id == old(
                    connection,
                ).books@[k].id,
            connection.authors@ == old(connection).authors@,
            connection.associations@ == old(connection).associations@,
            connection.next_book_id == old(connection).next_book_id,
            connection.next_author_id == old(connection).next_author_id,
        decreases connection.books@.len() - i,
    {
        if connection.books[i].id == id {
            connection.books.set(i, Book { id, name: new_name.to_owned() });
        }
        i = i + 1;
    }
    proof {
        assert(connection.book_views() =~= rename_entity(
            old(connection).book_views(),
            id as int,
            new_name@,
        ));
        assert(connection.wf());
    }
    Ok(())
}

/// Removes the book with this id; a no-op, not an error, if no such row
/// exists. Association rows referencing the book are not touched: whether
/// they cascade is the underlying schema's policy, and this store keeps
/// them.
pub fn delete_book(id: i32, connection: &mut Catalog) -> (result: Result<(), StoreError>)
    requires
        old(connection).wf(),
    ensures
        final(connection).wf(),
        result is Ok,
        final(connection).book_views() == remove_entity(old(connection).book_views(), id as int),
        final(connection).authors@ == old(connection).authors@,
        final(connection).associations@ == old(connection).associations@,
        final(connection).next_book_id == old(connection).next_book_id,
        final(connection).next_author_id == old(connection).next_author_id,
{
    let mut kept: Vec<Book> = Vec::new();
    let mut i: usize = 0;
    while i < connection.books.len()
        invariant
            *connection == *old(connection),
            i <= connection.books@.len(),
            crate::models::book_views(kept@) == remove_entity(
                connection.book_views().take(i as int),
                id as int,
            ),
        decreases connection.books@.len() - i,
    {
        proof {
            let vs = connection.book_views();
            assert(vs.take(i as int + 1).drop_last() =~= vs.take(i as int));
            assert(vs.take(i as int + 1).last() == connection.books@[i as int]@);
        }
        if connection.books[i].id != id {
            let ghost prev = kept@;
            kept.push(connection.books[i].clone());
            proof {
                assert(crate::models::book_views(kept@) =~= crate::models::book_views(prev).push(
                    connection.books@[i as int]@,
                ));
            }
        }
        i = i + 1;
    }
    proof {
        let vs = old(connection).book_views();
        assert(vs.take(connection.books@.len() as int) =~= vs);
        let rv = remove_entity(vs, id as int);
        assert forall|i1: int, j1: int|
            #![trigger vs[i1], vs[j1]]
            0 <= i1 < j1 < vs.len() implies vs[i1].id != vs[j1].id by {
            assert(old(connection).books@[i1].id != old(connection).books@[j1].id);
        }
        lemma_remove_entity_members(vs, id as int);
        lemma_remove_entity_unique_ids(vs, id as int);
        assert forall|k: int| 0 <= k < kept@.len() implies 1 <= (#[trigger] kept@[k]).id < old(
            connection,
        ).next_book_id by {
            assert(rv[k] == kept@[k]@);
            let w = choose|w: int| 0 <= w < vs.len() && vs[w] == rv[k];
            assert(old(connection).books@[w]@ == rv[k]);
        }
        assert forall|k1: int, k2: int|
            #![trigger kept@[k1], kept@[k2]]
            0 <= k1 < k2 < kept@.len() implies kept@[k1].id != kept@[k2].id by {
            assert(rv[k1] == kept@[k1]@ && rv[k2] == kept@[k2]@);
        }
    }
    connection.books = kept;
    Ok(())
}

} // verus!
