use vstd::prelude::*;

use crate::models::{Author, EntityV, NewAuthor};
use crate::store::{
    find_entity, lemma_remove_entity_members, lemma_remove_entity_unique_ids, remove_entity,
    rename_entity, Catalog, StoreError,
};

verus! {

/// The view of an optional author row.
pub open spec fn opt_author_view(o: Option<Author>) -> Option<EntityV> {
    match o {
        Some(a) => Some(a@),
        None => None,
    }
}

/// Inserts a new author row and returns the identifier the store generated
/// for it. The new row is appended to the table; nothing else changes.
pub fn create_author(name: &str, connection: &mut Catalog) -> (result: Result<i32, StoreError>)
    requires
        old(connection).wf(),
        old(connection).next_author_id < i32::MAX,
    ensures
        final(connection).wf(),
        result matches Ok(id) && id == old(connection).next_author_id,
        final(connection).author_views() == old(connection).author_views().push(
            (EntityV { id: old(connection).next_author_id as int, name: name@ }),
        ),
        final(connection).books@ == old(connection).books@,
        final(connection).associations@ == old(connection).associations@,
        final(connection).next_author_id == old(connection).next_author_id + 1,
        final(connection).next_book_id == old(connection).next_book_id,
{
    let new_author = NewAuthor { name: name.to_owned() };
    let created_id = connection.next_author_id;
    connection.authors.push(Author { id: created_id, name: new_author.name });
    connection.next_author_id = created_id + 1;
    proof {
        assert(connection.author_views() =~= old(connection).author_views().push(
            (EntityV { id: created_id as int, name: name@ }),
        ));
    }
    Ok(created_id)
}

/// Returns every author row, in table order.
pub fn get_all_authors(connection: &mut Catalog) -> (result: Result<Vec<Author>, StoreError>)
    ensures
        *final(connection) == *old(connection),
        result matches Ok(v) && v@ == old(connection).authors@,
{
    let mut out: Vec<Author> = Vec::new();
    let mut i: usize = 0;
    while i < connection.authors.len()
        invariant
            *connection == *old(connection),
            i <= connection.authors@.len(),
            out@ =~= connection.authors@.subrange(0, i as int),
        decreases connection.authors@.len() - i,
    {
        out.push(connection.authors[i].clone());
        i = i + 1;
    }
    proof {
        assert(out@ =~= connection.authors@);
    }
    Ok(out)
}

/// Looks an author up by id. An absent row is a valid outcome, returned as
/// `None`, never as an error.
pub fn get_author_by_id(id: i32, connection: &mut Catalog) -> (result: Result<
    Option<Author>,
    StoreError,
>)
    requires
        old(connection).wf(),
    ensures
        *final(connection) == *old(connection),
        result matches Ok(r) && opt_author_view(r) == find_entity(
            old(connection).author_views(),
            id as int,
        ),
{
    match connection.author_index(id) {
        Some(i) => {
            let found = connection.authors[i].clone();
            proof {
                let vs = connection.author_views();
                assert(vs[i as int].id == id as int);
                let j = choose|k: int| 0 <= k < vs.len() && vs[k].id == id as int;
                assert(connection.authors@[j].id == connection.authors@[i as int].id);
                assert(j == i as int);
            }
            Ok(Some(found))
        },
        None => Ok(None),
    }
}

/// Rewrites the name of the author with this id; a no-op, not an error, if
/// no such row exists ("zero rows affected").
pub fn update_author(id: i32, new_name: &str, connection: &mut Catalog) -> (result: Result<
    (),
    StoreError,
>)
    requires
        old(connection).wf(),
    ensures
        final(connection).wf(),
        result is Ok,
        final(connection).author_views() == rename_entity(
            old(connection).author_views(),
            id as int,
            new_name@,
        ),
        final(connection).books@ == old(connection).books@,
        final(connection).associations@ == old(connection).associations@,
        final(connection).next_book_id == old(connection).next_book_id,
        final(connection).next_author_id == old(connection).next_author_id,
{
    let mut i: usize = 0;
    while i < connection.authors.len()
        invariant
            i <= connection.authors@.len(),
            connection.authors@.len() == old(connection).authors@.len(),
            forall|k: int|
                i <= k < connection.authors@.len() ==> (#[trigger] connection.authors@[k]) == old(
                    connection,
                ).authors@[k],
            forall|k: int|
                0 <= k < i ==> (#[trigger] connection.authors@[k])@ == (if old(
                    connection,
                ).authors@[k].id == id {
                    (EntityV { id: id as int, name: new_name@ })
                } else {
                    old(connection).authors@[k]@
                }),
            forall|k: int|
                0 <= k < i ==> (#[trigger] connection.authors@[k]).id == old(
                    connection,
                ).authors@[k].id,
            connection.books@ == old(connection).books@,
            connection.associations@ == old(connection).associations@,
            connection.next_book_id == old(connection).next_book_id,
            connection.next_author_id == old(connection).next_author_id,
        decreases connection.authors@.len() - i,
    {
        if connection.authors[i].id == id {
            connection.authors.set(i, Author { id, name: new_name.to_owned() });
        }
        i = i + 1;
    }
    proof {
        assert(connection.author_views() =~= rename_entity(
            old(connection).author_views(),
            id as int,
            new_name@,
        ));
        assert(connection.wf());
    }
    Ok(())
}

/// Removes the author with this id; a no-op, not an error, if no such row
/// exists. Association rows referencing the author are not touched: whether
/// they cascade is the underlying schema's policy, and this store keeps
/// them.
pub fn delete_author(id: i32, connection: &mut Catalog) -> (result: Result<(), StoreError>)
    requires
        old(connection).wf(),
    ensures
        final(connection).wf(),
        result is Ok,
        final(connection).author_views() == remove_entity(
            old(connection).author_views(),
            id as int,
        ),
        final(connection).books@ == old(connection).books@,
        final(connection).associations@ == old(connection).associations@,
        final(connection).next_book_id == old(connection).next_book_id,
        final(connection).next_author_id == old(connection).next_author_id,
{
    let mut kept: Vec<Author> = Vec::new();
    let mut i: usize = 0;
    while i < connection.authors.len()
        invariant
            *connection == *old(connection),
            i <= connection.authors@.len(),
            crate::models::author_views(kept@) == remove_entity(
                connection.author_views().take(i as int),
                id as int,
            ),
        decreases connection.authors@.len() - i,
    {
        proof {
            let vs = connection.author_views();
            assert(vs.take(i as int + 1).drop_last() =~= vs.take(i as int));
            assert(vs.take(i as int + 1).last() == connection.authors@[i as int]@);
        }
        if connection.authors[i].id != id {
            let ghost prev = kept@;
            kept.push(connection.authors[i].clone());
            proof {
                assert(crate::models::author_views(kept@) =~= crate::models::author_views(
                    prev,
                ).push(connection.authors@[i as int]@));
            }
        }
        i = i + 1;
    }
    proof {
        let vs = old(connection).author_views();
        assert(vs.take(connection.authors@.len() as int) =~= vs);
        let rv = remove_entity(vs, id as int);
        assert forall|i1: int, j1: int|
            #![trigger vs[i1], vs[j1]]
            0 <= i1 < j1 < vs.len() implies vs[i1].id != vs[j1].id by {
            assert(old(connection).authors@[i1].id != old(connection).authors@[j1].id);
        }
        lemma_remove_entity_members(vs, id as int);
        lemma_remove_entity_unique_ids(vs, id as int);
        assert forall|k: int| 0 <= k < kept@.len() implies 1 <= (#[trigger] kept@[k]).id < old(
            connection,
        ).next_author_id by {
            assert(rv[k] == kept@[k]@);
            let w = choose|w: int| 0 <= w < vs.len() && vs[w] == rv[k];
            assert(old(connection).authors@[w]@ == rv[k]);
        }
        assert forall|k1: int, k2: int|
            #![trigger kept@[k1], kept@[k2]]
            0 <= k1 < k2 < kept@.len() implies kept@[k1].id != kept@[k2].id by {
            assert(rv[k1] == kept@[k1]@ && rv[k2] == kept@[k2]@);
        }
    }
    connection.authors = kept;
    Ok(())
}

} // verus!
