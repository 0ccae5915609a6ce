use vstd::prelude::*;

use crate::models::{author_views, book_views, Author, Book, EntityV, NewBookAuthor};
use crate::queries::author_queries::create_author;
use crate::queries::book_author_queries::associate_book_with_author;
use crate::queries::book_queries::create_book;
use crate::store::{has_assoc, has_entity, Catalog, StoreError};

verus! {

/// A failure of the bulk loader. A pair naming a book or an author that the
/// seed lists do not contain is seed-data inconsistency, fatal and distinct
/// from a store failure; a store failure while inserting an association
/// (for instance a duplicate pair when seeding over existing rows) is
/// carried through unchanged.
#[derive(Debug, Clone, Copy, PartialEq, Eq, Structural)]
pub enum SeedError {
    UnknownBookName { pair_index: usize },
    UnknownAuthorName { pair_index: usize },
    Store(StoreError),
}

/// The first row of `s` carrying `name`, if any: what a linear lookup by
/// name returns. Names need not be unique, so the first match decides.
pub open spec fn first_with_name(s: Seq<EntityV>, name: Seq<char>) -> Option<EntityV>
    decreases s.len(),
{
    if s.len() == 0 {
        None
    } else if s[0].name == name {
        Some(s[0])
    } else {
        first_with_name(s.drop_first(), name)
    }
}

/// A row found by name is a row of `s` and carries that name.
pub proof fn lemma_first_with_name_member(s: Seq<EntityV>, name: Seq<char>)
    ensures
        first_with_name(s, name) matches Some(e) ==> s.contains(e) && e.name == name,
    decreases s.len(),
{
    if s.len() == 0 {
    } else if s[0].name == name {
        assert(s.contains(s[0]));
    } else {
        lemma_first_with_name_member(s.drop_first(), name);
        if first_with_name(s, name) is Some {
            let e = first_with_name(s, name)->Some_0;
            let w = choose|w: int| 0 <= w < s.drop_first().len() && s.drop_first()[w] == e;
            assert(s[w + 1] == e);
        }
    }
}

/// The views of the name pairs to be associated.
pub open spec fn pair_views(s: Seq<(String, String)>) -> Seq<(Seq<char>, Seq<char>)> {
    s.map_values(|p: (String, String)| (p.0@, p.1@))
}

/// The rows a bulk insert of `names` creates when the store's next
/// generated identifier is `first_id`: consecutive ids, names in list
/// order.
pub open spec fn created_entities(names: Seq<String>, first_id: int) -> Seq<EntityV> {
    Seq::new(names.len(), |j: int| EntityV { id: first_id + j, name: names[j]@ })
}

/// Resolving one name pair against the created rows: the ids of the first
/// book and the first author carrying the two names, or nothing if either
/// name is absent.
pub open spec fn pair_resolution(
    bviews: Seq<EntityV>,
    aviews: Seq<EntityV>,
    p: (Seq<char>, Seq<char>),
) -> Option<(int, int)> {
    match (first_with_name(bviews, p.0), first_with_name(aviews, p.1)) {
        (Some(b), Some(a)) => Some((b.id, a.id)),
        _ => None,
    }
}

/// Whether every pair resolves.
pub open spec fn all_resolve(
    bviews: Seq<EntityV>,
    aviews: Seq<EntityV>,
    pv: Seq<(Seq<char>, Seq<char>)>,
) -> bool {
    forall|i: int| 0 <= i < pv.len() ==> pair_resolution(bviews, aviews, #[trigger] pv[i]) is Some
}

/// The resolved (book id, author id) sequence, meaningful where
/// `all_resolve` holds.
pub open spec fn resolved_seq(
    bviews: Seq<EntityV>,
    aviews: Seq<EntityV>,
    pv: Seq<(Seq<char>, Seq<char>)>,
) -> Seq<(int, int)> {
    Seq::new(
        pv.len(),
        |i: int|
            match pair_resolution(bviews, aviews, pv[i]) {
                Some(p) => p,
                None => (0, 0),
            },
    )
}

/// Whether the resolved pairs can all be inserted: none repeats an earlier
/// one and none is already associated.
pub open spec fn no_clash(old_assocs: Seq<(int, int)>, rs: Seq<(int, int)>) -> bool {
    &&& forall|i: int, j: int|
        #![trigger rs[i], rs[j]]
        0 <= i < j < rs.len() ==> rs[i] != rs[j]
    &&& forall|i: int| 0 <= i < rs.len() ==> !old_assocs.contains(#[trigger] rs[i])
}

/// The id of the first book carrying `name`, by linear scan of the fetched
/// rows.
fn find_book_id_by_name(books: &Vec<Book>, name: &String) -> (r: Option<i32>)
    ensures
        match r {
            Some(id) => first_with_name(book_views(books@), name@) matches Some(e) && e.id
                == id as int,
            None => first_with_name(book_views(books@), name@) is None,
        },
{
    let ghost full = book_views(books@);
    proof {
        assert(full.skip(0) =~= full);
    }
    let mut i: usize = 0;
    while i < books.len()
        invariant
            i <= books@.len(),
            full == book_views(books@),
            first_with_name(full, name@) == first_with_name(full.skip(i as int), name@),
        decreases books@.len() - i,
    {
        proof {
            assert(full.skip(i as int)[0] == books@[i as int]@);
            assert(full.skip(i as int).drop_first() =~= full.skip(i as int + 1));
        }
        if books[i].name == *name {
            return Some(books[i].id);
        }
        i = i + 1;
    }
    proof {
        assert(full.skip(books@.len() as int) =~= Seq::<EntityV>::empty());
    }
    None
}

/// The id of the first author carrying `name`, by linear scan of the
/// fetched rows.
fn find_author_id_by_name(authors: &Vec<Author>, name: &String) -> (r: Option<i32>)
    ensures
        match r {
            Some(id) => first_with_name(author_views(authors@), name@) matches Some(e) && e.id
                == id as int,
            None => first_with_name(author_views(authors@), name@) is None,
        },
{
    let ghost full = author_views(authors@);
    proof {
        assert(full.skip(0) =~= full);
    }
    let mut i: usize = 0;
    while i < authors.len()
        invariant
            i <= authors@.len(),
            full == author_views(authors@),
            first_with_name(full, name@) == first_with_name(full.skip(i as int), name@),
        decreases authors@.len() - i,
    {
        proof {
            assert(full.skip(i as int)[0] == authors@[i as int]@);
            assert(full.skip(i as int).drop_first() =~= full.skip(i as int + 1));
        }
        if authors[i].name == *name {
            return Some(authors[i].id);
        }
        i = i + 1;
    }
    proof {
        assert(full.skip(authors@.len() as int) =~= Seq::<EntityV>::empty());
    }
    None
}

/// Resolves every (book name, author name) pair back to ids by linear
/// lookup in the fetched rows, in pair order. The first pair whose book
/// name is absent aborts with `UnknownBookName`; one whose book name is
/// present but whose author name is absent aborts with
/// `UnknownAuthorName`. Nothing is written anywhere: this is the pure
/// resolution step of the seeder.
pub fn resolve_associations(
    books: &Vec<Book>,
    authors: &Vec<Author>,
    pairs: &Vec<(String, String)>,
) -> (result: Result<Vec<NewBookAuthor>, SeedError>)
    ensures
        ({
            let bv = book_views(books@);
            let av = author_views(authors@);
            let pv = pair_views(pairs@);
            match result {
                Ok(v) => v@.len() == pv.len() && (forall|i: int|
                    0 <= i < pv.len() ==> pair_resolution(bv, av, pv[i]) == Some(
                        (#[trigger] v@[i])@,
                    )),
                Err(SeedError::UnknownBookName { pair_index }) => pair_index < pv.len()
                    && first_with_name(bv, pv[pair_index as int].0) is None && (forall|j: int|
                    0 <= j < pair_index ==> pair_resolution(bv, av, #[trigger] pv[j]) is Some),
                Err(SeedError::UnknownAuthorName { pair_index }) => pair_index < pv.len()
                    && first_with_name(bv, pv[pair_index as int].0) is Some && first_with_name(
                    av,
                    pv[pair_index as int].1,
                ) is None && (forall|j: int|
                    0 <= j < pair_index ==> pair_resolution(bv, av, #[trigger] pv[j]) is Some),
                Err(SeedError::Store(..)) => false,
            }
        }),
{
    let mut out: Vec<NewBookAuthor> = Vec::new();
    let mut i: usize = 0;
    while i < pairs.len()
        invariant
            i <= pairs@.len(),
            out@.len() == i,
            forall|j: int|
                0 <= j < i ==> pair_resolution(
                    book_views(books@),
                    author_views(authors@),
                    pair_views(pairs@)[j],
                ) == Some((#[trigger] out@[j])@),
        decreases pairs@.len() - i,
    {
        proof {
            assert forall|j: int| 0 <= j < i implies pair_resolution(
                book_views(books@),
                author_views(authors@),
                #[trigger] pair_views(pairs@)[j],
            ) is Some by {
                assert(pair_resolution(
                    book_views(books@),
                    author_views(authors@),
                    pair_views(pairs@)[j],
                ) == Some(out@[j]@));
            }
        }
        let book_id = match find_book_id_by_name(books, &pairs[i].0) {
            Some(id) => id,
            None => {
                return Err(SeedError::UnknownBookName { pair_index: i });
            },
        };
        let author_id = match find_author_id_by_name(authors, &pairs[i].1) {
            Some(id) => id,
            None => {
                return Err(SeedError::UnknownAuthorName { pair_index: i });
            },
        };
        out.push(NewBookAuthor { book_id, author_id });
        i = i + 1;
    }
    Ok(out)
}

/// The bulk loader: inserts every book name, then every author name,
/// capturing each generated id; resolves every (book name, author name)
/// pair against those captured rows by linear lookup; and only then inserts
/// the associations, so a pair naming an unknown book or author aborts with
/// the association table untouched. A store failure while inserting an
/// association (a duplicate pair) aborts with the associations inserted so
/// far kept: there is no transactional wrapping. No idempotency check is
/// made: seeding twice duplicates every entity and trips the association
/// primary key.
pub fn seed_catalog(
    book_names: &Vec<String>,
    author_names: &Vec<String>,
    pairs: &Vec<(String, String)>,
    connection: &mut Catalog,
) -> (result: Result<(), SeedError>)
    requires
        old(connection).wf(),
        old(connection).next_book_id + book_names@.len() <= i32::MAX,
        old(connection).next_author_id + author_names@.len() <= i32::MAX,
    ensures
        final(connection).wf(),
        final(connection).book_views() == old(connection).book_views() + created_entities(
            book_names@,
            old(connection).next_book_id as int,
        ),
        final(connection).author_views() == old(connection).author_views() + created_entities(
            author_names@,
            old(connection).next_author_id as int,
        ),
        final(connection).next_book_id == old(connection).next_book_id + book_names@.len(),
        final(connection).next_author_id == old(connection).next_author_id + author_names@.len(),
        ({
            let bnew = created_entities(book_names@, old(connection).next_book_id as int);
            let anew = created_entities(author_names@, old(connection).next_author_id as int);
            let pv = pair_views(pairs@);
            let before = old(connection).assoc_views();
            let rs = resolved_seq(bnew, anew, pv);
            &&& (result is Ok <==> all_resolve(bnew, anew, pv) && no_clash(before, rs))
            &&& (result is Ok ==> final(connection).assoc_views() == before + rs)
            &&& (result matches Err(SeedError::UnknownBookName { pair_index }) ==> pair_index
                < pv.len() && first_with_name(bnew, pv[pair_index as int].0) is None && final(connection).assoc_views() == before)
            &&& (result matches Err(SeedError::UnknownAuthorName { pair_index }) ==> pair_index
                < pv.len() && first_with_name(bnew, pv[pair_index as int].0) is Some
                && first_with_name(anew, pv[pair_index as int].1) is None && final(connection).assoc_views() == before)
            &&& (result matches Err(SeedError::Store(e)) ==> all_resolve(bnew, anew, pv) && (
            e matches StoreError::DuplicateAssociation { .. }) && (exists|k: int|
                0 <= k < rs.len() && final(connection).assoc_views() == before + rs.take(k) && (
                before + rs.take(k)).contains(#[trigger] rs[k])))
        }),
{
    let ghost first_b = old(connection).next_book_id as int;
    let ghost first_a = old(connection).next_author_id as int;
    let ghost bnew = created_entities(book_names@, first_b);
    let ghost anew = created_entities(author_names@, first_a);
    let ghost pv = pair_views(pairs@);
    let ghost before = old(connection).assoc_views();

    let mut created_books: Vec<Book> = Vec::new();
    let mut i: usize = 0;
    while i < book_names.len()
        invariant
            i <= book_names@.len(),
            connection.wf(),
            first_b == old(connection).next_book_id as int,
            first_b + book_names@.len() <= i32::MAX,
            connection.next_book_id as int == first_b + i,
            connection.book_views() == old(connection).book_views() + crate::models::book_views(
                created_books@,
            ),
            crate::models::book_views(created_books@) == created_entities(
                book_names@,
                first_b,
            ).take(i as int),
            connection.authors@ == old(connection).authors@,
            connection.associations@ == old(connection).associations@,
            connection.next_author_id == old(connection).next_author_id,
        decreases book_names@.len() - i,
    {
        let created_id = match create_book(book_names[i].as_str(), connection) {
            Ok(id) => id,
            Err(e) => {
                return Err(SeedError::Store(e));
            },
        };
        let ghost prev = created_books@;
        created_books.push(Book { id: created_id, name: book_names[i].clone() });
        proof {
            assert(crate::models::book_views(created_books@) =~= crate::models::book_views(
                prev,
            ).push((EntityV { id: first_b + i, name: book_names@[i as int]@ })));
            assert(created_entities(book_names@, first_b).take(i as int + 1) =~= created_entities(
                book_names@,
                first_b,
            ).take(i as int).push((EntityV { id: first_b + i, name: book_names@[i as int]@ })));
            assert(connection.book_views() =~= old(connection).book_views()
                + crate::models::book_views(created_books@));
        }
        i = i + 1;
    }
    proof {
        assert(created_entities(book_names@, first_b).take(book_names@.len() as int)
            =~= created_entities(book_names@, first_b));
    }

    let mut created_authors: Vec<Author> = Vec::new();
    let mut j: usize = 0;
    while j < author_names.len()
        invariant
            j <= author_names@.len(),
            connection.wf(),
            first_a == old(connection).next_author_id as int,
            first_a + author_names@.len() <= i32::MAX,
            connection.next_author_id as int == first_a + j,
            connection.author_views() == old(connection).author_views()
                + crate::models::author_views(created_authors@),
            crate::models::author_views(created_authors@) == created_entities(
                author_names@,
                first_a,
            ).take(j as int),
            connection.book_views() == old(connection).book_views() + bnew,
            connection.next_book_id as int == first_b + book_names@.len(),
            connection.associations@ == old(connection).associations@,
        decreases author_names@.len() - j,
    {
        let created_id = match create_author(author_names[j].as_str(), connection) {
            Ok(id) => id,
            Err(e) => {
                return Err(SeedError::Store(e));
            },
        };
        let ghost prev = created_authors@;
        created_authors.push(Author { id: created_id, name: author_names[j].clone() });
        proof {
            assert(crate::models::author_views(created_authors@) =~= crate::models::author_views(
                prev,
            ).push((EntityV { id: first_a + j, name: author_names@[j as int]@ })));
            assert(created_entities(author_names@, first_a).take(j as int + 1)
                =~= created_entities(author_names@, first_a).take(j as int).push(
                (EntityV { id: first_a + j, name: author_names@[j as int]@ }),
            ));
            assert(connection.author_views() =~= old(connection).author_views()
                + crate::models::author_views(created_authors@));
        }
        j = j + 1;
    }
    proof {
        assert(created_entities(author_names@, first_a).take(author_names@.len() as int)
            =~= created_entities(author_names@, first_a));
    }

    let resolved = match resolve_associations(&created_books, &created_authors, pairs) {
        Ok(v) => v,
        Err(e) => {
            proof {
                match e {
                    SeedError::UnknownBookName { pair_index } => {
                        assert(pair_resolution(bnew, anew, pv[pair_index as int]) is None);
                        assert(!all_resolve(bnew, anew, pv));
                    },
                    SeedError::UnknownAuthorName { pair_index } => {
                        assert(pair_resolution(bnew, anew, pv[pair_index as int]) is None);
                        assert(!all_resolve(bnew, anew, pv));
                    },
                    SeedError::Store(..) => {},
                }
            }
            return Err(e);
        },
    };
    let ghost rs = resolved_seq(bnew, anew, pv);
    proof {
        assert forall|m: int| 0 <= m < rs.len() implies (#[trigger] resolved@[m])@ == rs[m] by {
            assert(pair_resolution(bnew, anew, pv[m]) == Some(resolved@[m]@));
        }
    }

    let mut k: usize = 0;
    while k < resolved.len()
        invariant
            k <= resolved@.len(),
            connection.wf(),
            first_b == old(connection).next_book_id as int,
            first_a == old(connection).next_author_id as int,
            bnew == created_entities(book_names@, first_b),
            anew == created_entities(author_names@, first_a),
            pv == pair_views(pairs@),
            before == old(connection).assoc_views(),
            resolved@.len() == rs.len(),
            rs == resolved_seq(bnew, anew, pv),
            forall|m: int| 0 <= m < rs.len() ==> (#[trigger] resolved@[m])@ == rs[m],
            forall|m: int|
                0 <= m < rs.len() ==> pair_resolution(bnew, anew, pv[m]) == Some(
                    (#[trigger] resolved@[m])@,
                ),
            connection.assoc_views() == before + rs.take(k as int),
            forall|m: int| 0 <= m < k ==> !(before + rs.take(m)).contains(#[trigger] rs[m]),
            connection.book_views() == old(connection).book_views() + bnew,
            connection.author_views() == old(connection).author_views() + anew,
            connection.next_book_id as int == first_b + book_names@.len(),
            connection.next_author_id as int == first_a + author_names@.len(),
        decreases resolved@.len() - k,
    {
        proof {
            lemma_first_with_name_member(bnew, pv[k as int].0);
            lemma_first_with_name_member(anew, pv[k as int].1);
            assert(pair_resolution(bnew, anew, pv[k as int]) == Some(resolved@[k as int]@));
            let eb = first_with_name(bnew, pv[k as int].0)->Some_0;
            let wb = choose|w: int| 0 <= w < bnew.len() && bnew[w] == eb;
            assert(connection.book_views()[old(connection).book_views().len() + wb] == eb);
            assert(has_entity(connection.book_views(), resolved@[k as int].book_id as int));
            let ea = first_with_name(anew, pv[k as int].1)->Some_0;
            let wa = choose|w: int| 0 <= w < anew.len() && anew[w] == ea;
            assert(connection.author_views()[old(connection).author_views().len() + wa] == ea);
            assert(has_entity(connection.author_views(), resolved@[k as int].author_id as int));
        }
        let row = resolved[k];
        match associate_book_with_author(row.book_id, row.author_id, connection) {
            Ok(_) => {
                proof {
                    assert(before + rs.take(k as int + 1) =~= (before + rs.take(k as int)).push(
                        rs[k as int],
                    ));
                }
            },
            Err(e) => {
                proof {
                    assert forall|m: int| 0 <= m < pv.len() implies pair_resolution(
                        bnew,
                        anew,
                        #[trigger] pv[m],
                    ) is Some by {
                        assert(pair_resolution(bnew, anew, pv[m]) == Some(resolved@[m]@));
                    }
                    assert(has_assoc(before + rs.take(k as int), rs[k as int].0, rs[k as int].1));
                    assert((before + rs.take(k as int)).contains(rs[k as int]));
                    // the clash refutes no_clash: it is either a pair already
                    // present before seeding, or a repeat of an earlier pair
                    let w = choose|w: int|
                        0 <= w < (before + rs.take(k as int)).len() && (before + rs.take(
                            k as int,
                        ))[w] == rs[k as int];
                    if w < before.len() {
                        assert(before.contains(rs[k as int]));
                        assert(!no_clash(before, rs));
                    } else {
                        assert(rs[w - before.len()] == rs[k as int]);
                        assert(!no_clash(before, rs));
                    }
                }
                return Err(SeedError::Store(e));
            },
        }
        k = k + 1;
    }
    proof {
        assert(rs.take(rs.len() as int) =~= rs);
        assert forall|m: int| 0 <= m < pv.len() implies pair_resolution(
            bnew,
            anew,
            #[trigger] pv[m],
        ) is Some by {
            assert(pair_resolution(bnew, anew, pv[m]) == Some(resolved@[m]@));
        }
        assert forall|m1: int, m2: int|
            #![trigger rs[m1], rs[m2]]
            0 <= m1 < m2 < rs.len() implies rs[m1] != rs[m2] by {
            if rs[m1] == rs[m2] {
                assert((before + rs.take(m2))[before.len() + m1] == rs[m1]);
                assert((before + rs.take(m2)).contains(rs[m2]));
            }
        }
        assert forall|m: int| 0 <= m < rs.len() implies !before.contains(#[trigger] rs[m]) by {
            if before.contains(rs[m]) {
                let w = choose|w: int| 0 <= w < before.len() && before[w] == rs[m];
                assert((before + rs.take(m))[w] == rs[m]);
                assert((before + rs.take(m)).contains(rs[m]));
            }
        }
    }
    Ok(())
}

} // verus!
