use vstd::prelude::*;

use super::author_queries::{get_all_authors, get_author_by_id};
use super::book_queries::{get_all_books, get_book_by_id};
use crate::models::{
    assoc_views, author_views, book_views, Author, Book, BookAuthor, NewBookAuthor,
};
use crate::store::{
    entity_with_id, has_assoc, has_entity, has_pair, matched_authors, matched_books, Catalog,
    StoreError,
};

verus! {

/// Inserts one join-table row. Fails if either id is invalid (foreign-key
/// violation) or the pair is already associated (primary-key violation);
/// there is no implicit upsert. On failure the catalogue is unchanged.
pub fn associate_book_with_author(book_id: i32, author_id: i32, connection: &mut Catalog) -> (result:
    Result<(), StoreError>)
    requires
        old(connection).wf(),
    ensures
        final(connection).wf(),
        result is Ok <==> (has_entity(old(connection).book_views(), book_id as int) && has_entity(
            old(connection).author_views(),
            author_id as int,
        ) && !has_assoc(old(connection).assoc_views(), book_id as int, author_id as int)),
        result is Ok ==> final(connection).assoc_views() == old(connection).assoc_views().push(
            (book_id as int, author_id as int),
        ) && final(connection).books@ == old(connection).books@ && final(connection).authors@
            == old(connection).authors@ && final(connection).next_book_id == old(
            connection,
        ).next_book_id && final(connection).next_author_id == old(connection).next_author_id,
        result is Err ==> *final(connection) == *old(connection),
        !has_entity(old(connection).book_views(), book_id as int) ==> result == Err::<
            (),
            StoreError,
        >((StoreError::MissingBook { book_id })),
        has_entity(old(connection).book_views(), book_id as int) && !has_entity(
            old(connection).author_views(),
            author_id as int,
        ) ==> result == Err::<(), StoreError>((StoreError::MissingAuthor { author_id })),
        has_entity(old(connection).book_views(), book_id as int) && has_entity(
            old(connection).author_views(),
            author_id as int,
        ) && has_assoc(old(connection).assoc_views(), book_id as int, author_id as int) ==> result
            == Err::<(), StoreError>((StoreError::DuplicateAssociation { book_id, author_id })),
{
    let new_book_author = NewBookAuthor { book_id, author_id };
    if connection.book_index(new_book_author.book_id).is_none() {
        return Err(StoreError::MissingBook { book_id });
    }
    proof {
        let i = choose|i: int|
            0 <= i < connection.books@.len() && connection.books@[i].id == book_id;
        assert(connection.book_views()[i].id == book_id as int);
    }
    if connection.author_index(new_book_author.author_id).is_none() {
        return Err(StoreError::MissingAuthor { author_id });
    }
    proof {
        let i = choose|i: int|
            0 <= i < connection.authors@.len() && connection.authors@[i].id == author_id;
        assert(connection.author_views()[i].id == author_id as int);
    }
    if has_pair(&connection.associations, book_id, author_id) {
        return Err(StoreError::DuplicateAssociation { book_id, author_id });
    }
    connection.associations.push(
        BookAuthor { book_id: new_book_author.book_id, author_id: new_book_author.author_id },
    );
    proof {
        assert(connection.assoc_views() =~= old(connection).assoc_views().push(
            (book_id as int, author_id as int),
        ));
        assert forall|i: int, j: int|
            #![trigger connection.associations@[i], connection.associations@[j]]
            0 <= i < j < connection.associations@.len() implies connection.associations@[i]@
            != connection.associations@[j]@ by {
            if j == connection.associations@.len() - 1 {
                assert(old(connection).assoc_views()[i] == connection.associations@[i]@);
            }
        }
    }
    Ok(())
}

/// The authors associated with `book_id`, cloned out of the author table in
/// table order.
fn authors_matching(authors: &Vec<Author>, associations: &Vec<BookAuthor>, book_id: i32) -> (out:
    Vec<Author>)
    ensures
        author_views(out@) == matched_authors(
            assoc_views(associations@),
            author_views(authors@),
            book_id as int,
        ),
{
    let mut out: Vec<Author> = Vec::new();
    let mut i: usize = 0;
    while i < authors.len()
        invariant
            i <= authors@.len(),
            author_views(out@) == matched_authors(
                assoc_views(associations@),
                author_views(authors@).take(i as int),
                book_id as int,
            ),
        decreases authors@.len() - i,
    {
        proof {
            let av = author_views(authors@);
            assert(av.take(i as int + 1).drop_last() =~= av.take(i as int));
            assert(av.take(i as int + 1).last() == authors@[i as int]@);
        }
        if has_pair(associations, book_id, authors[i].id) {
            let ghost prev = out@;
            out.push(authors[i].clone());
            proof {
                assert(author_views(out@) =~= author_views(prev).push(authors@[i as int]@));
            }
        }
        i = i + 1;
    }
    proof {
        assert(author_views(authors@).take(authors@.len() as int) =~= author_views(authors@));
    }
    out
}

/// The books associated with `author_id`, cloned out of the book table in
/// table order.
fn books_matching(books: &Vec<Book>, associations: &Vec<BookAuthor>, author_id: i32) -> (out: Vec<
    Book,
>)
    ensures
        book_views(out@) == matched_books(
            assoc_views(associations@),
            book_views(books@),
            author_id as int,
        ),
{
    let mut out: Vec<Book> = Vec::new();
    let mut i: usize = 0;
    while i < books.len()
        invariant
            i <= books@.len(),
            book_views(out@) == matched_books(
                assoc_views(associations@),
                book_views(books@).take(i as int),
                author_id as int,
            ),
        decreases books@.len() - i,
    {
        proof {
            let bv = book_views(books@);
            assert(bv.take(i as int + 1).drop_last() =~= bv.take(i as int));
            assert(bv.take(i as int + 1).last() == books@[i as int]@);
        }
        if has_pair(associations, books[i].id, author_id) {
            let ghost prev = out@;
            out.push(books[i].clone());
            proof {
                assert(book_views(out@) =~= book_views(prev).push(books@[i as int]@));
            }
        }
        i = i + 1;
    }
    proof {
        assert(book_views(books@).take(books@.len() as int) =~= book_views(books@));
    }
    out
}

/// Fetches the author by id and, when present, pairs it with every book
/// associated with it; absent authors short-circuit to `None` without
/// touching the join table. The order of the books is the book table's.
pub fn get_author_with_books(author_id: i32, connection: &mut Catalog) -> (result: Result<
    Option<(Author, Vec<Book>)>,
    StoreError,
>)
    requires
        old(connection).wf(),
    ensures
        *final(connection) == *old(connection),
        result matches Ok(r) && (match r {
            Some(pair) => has_entity(old(connection).author_views(), author_id as int)
                && pair.0@ == entity_with_id(old(connection).author_views(), author_id as int)
                && book_views(pair.1@) == matched_books(
                old(connection).assoc_views(),
                old(connection).book_views(),
                author_id as int,
            ),
            None => !has_entity(old(connection).author_views(), author_id as int),
        }),
{
    let found = match get_author_by_id(author_id, connection) {
        Ok(o) => o,
        Err(e) => {
            return Err(e);
        },
    };
    let author = match found {
        Some(a) => a,
        None => {
            return Ok(None);
        },
    };
    let books = books_matching(&connection.books, &connection.associations, author_id);
    Ok(Some((author, books)))
}

/// Fetches the book by id and, when present, pairs it with every author
/// associated with it; absent books short-circuit to `None` without
/// touching the join table. The order of the authors is the author table's.
pub fn get_book_with_authors(book_id: i32, connection: &mut Catalog) -> (result: Result<
    Option<(Book, Vec<Author>)>,
    StoreError,
>)
    requires
        old(connection).wf(),
    ensures
        *final(connection) == *old(connection),
        result matches Ok(r) && (match r {
            Some(pair) => has_entity(old(connection).book_views(), book_id as int) && pair.0@
                == entity_with_id(old(connection).book_views(), book_id as int) && author_views(
                pair.1@,
            ) == matched_authors(
                old(connection).assoc_views(),
                old(connection).author_views(),
                book_id as int,
            ),
            None => !has_entity(old(connection).book_views(), book_id as int),
        }),
{
    let found = match get_book_by_id(book_id, connection) {
        Ok(o) => o,
        Err(e) => {
            return Err(e);
        },
    };
    let book = match found {
        Some(b) => b,
        None => {
            return Ok(None);
        },
    };
    let authors = authors_matching(&connection.authors, &connection.associations, book_id);
    Ok(Some((book, authors)))
}

/// The authors among the joined `(association, author)` rows whose
/// association points at `book_id`, in row order: the bucket that
/// group-by-parent builds for that book.
pub open spec fn bucket_authors(rows: Seq<(BookAuthor, Author)>, book_id: int) -> Seq<Author>
    decreases rows.len(),
{
    if rows.len() == 0 {
        Seq::empty()
    } else {
        let rest = bucket_authors(rows.drop_last(), book_id);
        if rows.last().0.book_id == book_id {
            rest.push(rows.last().1)
        } else {
            rest
        }
    }
}

/// The books among the joined `(association, book)` rows whose association
/// points at `author_id`, in row order.
pub open spec fn bucket_books(rows: Seq<(BookAuthor, Book)>, author_id: int) -> Seq<Book>
    decreases rows.len(),
{
    if rows.len() == 0 {
        Seq::empty()
    } else {
        let rest = bucket_books(rows.drop_last(), author_id);
        if rows.last().0.author_id == author_id {
            rest.push(rows.last().1)
        } else {
            rest
        }
    }
}

/// Appending a joined row extends exactly the bucket of its own parent.
pub proof fn lemma_bucket_authors_push(
    rows: Seq<(BookAuthor, Author)>,
    r: (BookAuthor, Author),
    book_id: int,
)
    ensures
        bucket_authors(rows.push(r), book_id) == (if r.0.book_id == book_id {
            bucket_authors(rows, book_id).push(r.1)
        } else {
            bucket_authors(rows, book_id)
        }),
{
    assert(rows.push(r).drop_last() =~= rows);
}

/// Appending a joined row extends exactly the bucket of its own parent.
pub proof fn lemma_bucket_books_push(
    rows: Seq<(BookAuthor, Book)>,
    r: (BookAuthor, Book),
    author_id: int,
)
    ensures
        bucket_books(rows.push(r), author_id) == (if r.0.author_id == author_id {
            bucket_books(rows, author_id).push(r.1)
        } else {
            bucket_books(rows, author_id)
        }),
{
    assert(rows.push(r).drop_last() =~= rows);
}

/// Group-by-parent over books: partitions the joined rows by book id onto
/// the given book sequence, in the same relative order. Every book appears
/// in the output, paired with its (possibly empty) bucket: a book with no
/// matching row is kept with an empty author list, never dropped, which is
/// what distinguishes this pass from reducing an inner join by key.
pub fn group_authors_by_book(books: Vec<Book>, rows: Vec<(BookAuthor, Author)>) -> (grouped: Vec<
    (Book, Vec<Author>),
>)
    ensures
        grouped@.len() == books@.len(),
        forall|i: int| 0 <= i < books@.len() ==> (#[trigger] grouped@[i]).0 == books@[i],
        forall|i: int|
            0 <= i < books@.len() ==> (#[trigger] grouped@[i]).1@ == bucket_authors(
                rows@,
                books@[i].id as int,
            ),
{
    let mut grouped: Vec<(Book, Vec<Author>)> = Vec::new();
    let mut i: usize = 0;
    while i < books.len()
        invariant
            i <= books@.len(),
            grouped@.len() == i,
            forall|k: int| 0 <= k < i ==> (#[trigger] grouped@[k]).0 == books@[k],
            forall|k: int|
                0 <= k < i ==> (#[trigger] grouped@[k]).1@ == bucket_authors(
                    rows@,
                    books@[k].id as int,
                ),
        decreases books@.len() - i,
    {
        let bid = books[i].id;
        let mut bucket: Vec<Author> = Vec::new();
        let mut k: usize = 0;
        while k < rows.len()
            invariant
                k <= rows@.len(),
                bucket@ == bucket_authors(rows@.take(k as int), bid as int),
            decreases rows@.len() - k,
        {
            proof {
                assert(rows@.take(k as int + 1) =~= rows@.take(k as int).push(rows@[k as int]));
                lemma_bucket_authors_push(rows@.take(k as int), rows@[k as int], bid as int);
            }
            if rows[k].0.book_id == bid {
                bucket.push(rows[k].1.clone());
            }
            k = k + 1;
        }
        proof {
            assert(rows@.take(rows@.len() as int) =~= rows@);
        }
        grouped.push((books[i].clone(), bucket));
        i = i + 1;
    }
    grouped
}

/// Group-by-parent over authors: the mirror of [`group_authors_by_book`],
/// partitioning joined rows by author id and keeping zero-match authors.
pub fn group_books_by_author(authors: Vec<Author>, rows: Vec<(BookAuthor, Book)>) -> (grouped: Vec<
    (Author, Vec<Book>),
>)
    ensures
        grouped@.len() == authors@.len(),
        forall|i: int| 0 <= i < authors@.len() ==> (#[trigger] grouped@[i]).0 == authors@[i],
        forall|i: int|
            0 <= i < authors@.len() ==> (#[trigger] grouped@[i]).1@ == bucket_books(
                rows@,
                authors@[i].id as int,
            ),
{
    let mut grouped: Vec<(Author, Vec<Book>)> = Vec::new();
    let mut i: usize = 0;
    while i < authors.len()
        invariant
            i <= authors@.len(),
            grouped@.len() == i,
            forall|k: int| 0 <= k < i ==> (#[trigger] grouped@[k]).0 == authors@[k],
            forall|k: int|
                0 <= k < i ==> (#[trigger] grouped@[k]).1@ == bucket_books(
                    rows@,
                    authors@[k].id as int,
                ),
        decreases authors@.len() - i,
    {
        let aid = authors[i].id;
        let mut bucket: Vec<Book> = Vec::new();
        let mut k: usize = 0;
        while k < rows.len()
            invariant
                k <= rows@.len(),
                bucket@ == bucket_books(rows@.take(k as int), aid as int),
            decreases rows@.len() - k,
        {
            proof {
                assert(rows@.take(k as int + 1) =~= rows@.take(k as int).push(rows@[k as int]));
                lemma_bucket_books_push(rows@.take(k as int), rows@[k as int], aid as int);
            }
            if rows[k].0.author_id == aid {
                bucket.push(rows[k].1.clone());
            }
            k = k + 1;
        }
        proof {
            assert(rows@.take(rows@.len() as int) =~= rows@);
        }
        grouped.push((authors[i].clone(), bucket));
        i = i + 1;
    }
    grouped
}

/// The one-round-trip join for [`get_all_books_and_authors`]: every
/// `(association, author)` row whose association points at one of the given
/// books. The row order is unspecified to callers; what is promised is the
/// bucket each listed book ends up with.
fn authors_for_books(
    books: &Vec<Book>,
    authors: &Vec<Author>,
    associations: &Vec<BookAuthor>,
) -> (rows: Vec<(BookAuthor, Author)>)
    requires
        forall|i: int, j: int|
            #![trigger books@[i], books@[j]]
            0 <= i < j < books@.len() ==> books@[i].id != books@[j].id,
    ensures
        forall|bid: int|
            has_entity(book_views(books@), bid) ==> author_views(bucket_authors(rows@, bid))
                == matched_authors(assoc_views(associations@), author_views(authors@), bid),
{
    let mut rows: Vec<(BookAuthor, Author)> = Vec::new();
    let mut i: usize = 0;
    while i < books.len()
        invariant
            i <= books@.len(),
            forall|i1: int, j1: int|
                #![trigger books@[i1], books@[j1]]
                0 <= i1 < j1 < books@.len() ==> books@[i1].id != books@[j1].id,
            forall|j: int|
                0 <= j < i ==> author_views(
                    bucket_authors(rows@, (#[trigger] books@[j]).id as int),
                ) == matched_authors(
                    assoc_views(associations@),
                    author_views(authors@),
                    books@[j].id as int,
                ),
            forall|bid: int|
                !(exists|j: int| 0 <= j < i && (#[trigger] books@[j]).id as int == bid)
                    ==> bucket_authors(rows@, bid) == Seq::<Author>::empty(),
        decreases books@.len() - i,
    {
        let matched = authors_matching(authors, associations, books[i].id);
        let ghost bid = books@[i as int].id as int;
        let ghost rows_start = rows@;
        proof {
            assert forall|j: int| 0 <= j < i implies (#[trigger] books@[j]).id as int != bid by {
                assert(books@[j].id != books@[i as int].id);
            }
            assert(bucket_authors(rows_start, bid) == Seq::<Author>::empty());
            assert(bucket_authors(rows_start, bid) =~= matched@.take(0));
        }
        let mut k: usize = 0;
        while k < matched.len()
            invariant
                k <= matched@.len(),
                i < books@.len(),
                bid == books@[i as int].id as int,
                bucket_authors(rows@, bid) == matched@.take(k as int),
                forall|b: int|
                    b != bid ==> #[trigger] bucket_authors(rows@, b) == bucket_authors(
                        rows_start,
                        b,
                    ),
            decreases matched@.len() - k,
        {
            let row = (
                BookAuthor { book_id: books[i].id, author_id: matched[k].id },
                matched[k].clone(),
            );
            let ghost rows_before = rows@;
            rows.push(row);
            proof {
                lemma_bucket_authors_push(rows_before, row, bid);
                assert(matched@.take(k as int + 1) =~= matched@.take(k as int).push(
                    matched@[k as int],
                ));
                assert forall|b: int|
                    b != bid implies #[trigger] bucket_authors(rows@, b) == bucket_authors(
                    rows_start,
                    b,
                ) by {
                    lemma_bucket_authors_push(rows_before, row, b);
                }
            }
            k = k + 1;
        }
        proof {
            assert(matched@.take(matched@.len() as int) =~= matched@);
        }
        i = i + 1;
    }
    proof {
        assert forall|bid: int| has_entity(book_views(books@), bid) implies author_views(
            bucket_authors(rows@, bid),
        ) == matched_authors(assoc_views(associations@), author_views(authors@), bid) by {
            let w = choose|w: int|
                0 <= w < book_views(books@).len() && book_views(books@)[w].id == bid;
            assert(books@[w].id as int == bid);
        }
    }
    rows
}

/// The one-round-trip join for [`get_all_authors_and_books`]: the mirror of
/// [`authors_for_books`].
fn books_for_authors(
    authors: &Vec<Author>,
    books: &Vec<Book>,
    associations: &Vec<BookAuthor>,
) -> (rows: Vec<(BookAuthor, Book)>)
    requires
        forall|i: int, j: int|
            #![trigger authors@[i], authors@[j]]
            0 <= i < j < authors@.len() ==> authors@[i].id != authors@[j].id,
    ensures
        forall|aid: int|
            has_entity(author_views(authors@), aid) ==> book_views(bucket_books(rows@, aid))
                == matched_books(assoc_views(associations@), book_views(books@), aid),
{
    let mut rows: Vec<(BookAuthor, Book)> = Vec::new();
    let mut i: usize = 0;
    while i < authors.len()
        invariant
            i <= authors@.len(),
            forall|i1: int, j1: int|
                #![trigger authors@[i1], authors@[j1]]
                0 <= i1 < j1 < authors@.len() ==> authors@[i1].id != authors@[j1].id,
            forall|j: int|
                0 <= j < i ==> book_views(bucket_books(rows@, (#[trigger] authors@[j]).id as int))
                    == matched_books(
                    assoc_views(associations@),
                    book_views(books@),
                    authors@[j].id as int,
                ),
            forall|aid: int|
                !(exists|j: int| 0 <= j < i && (#[trigger] authors@[j]).id as int == aid)
                    ==> bucket_books(rows@, aid) == Seq::<Book>::empty(),
        decreases authors@.len() - i,
    {
        let matched = books_matching(books, associations, authors[i].id);
        let ghost aid = authors@[i as int].id as int;
        let ghost rows_start = rows@;
        proof {
            assert forall|j: int| 0 <= j < i implies (#[trigger] authors@[j]).id as int != aid by {
                assert(authors@[j].id != authors@[i as int].id);
            }
            assert(bucket_books(rows_start, aid) == Seq::<Book>::empty());
            assert(bucket_books(rows_start, aid) =~= matched@.take(0));
        }
        let mut k: usize = 0;
        while k < matched.len()
            invariant
                k <= matched@.len(),
                i < authors@.len(),
                aid == authors@[i as int].id as int,
                bucket_books(rows@, aid) == matched@.take(k as int),
                forall|a: int|
                    a != aid ==> #[trigger] bucket_books(rows@, a) == bucket_books(rows_start, a),
            decreases matched@.len() - k,
        {
            let row = (
                BookAuthor { book_id: matched[k].id, author_id: authors[i].id },
                matched[k].clone(),
            );
            let ghost rows_before = rows@;
            rows.push(row);
            proof {
                lemma_bucket_books_push(rows_before, row, aid);
                assert(matched@.take(k as int + 1) =~= matched@.take(k as int).push(
                    matched@[k as int],
                ));
                assert forall|a: int|
                    a != aid implies #[trigger] bucket_books(rows@, a) == bucket_books(
                    rows_start,
                    a,
                ) by {
                    lemma_bucket_books_push(rows_before, row, a);
                }
            }
            k = k + 1;
        }
        proof {
            assert(matched@.take(matched@.len() as int) =~= matched@);
        }
        i = i + 1;
    }
    proof {
        assert forall|aid: int| has_entity(author_views(authors@), aid) implies book_views(
            bucket_books(rows@, aid),
        ) == matched_books(assoc_views(associations@), book_views(books@), aid) by {
            let w = choose|w: int|
                0 <= w < author_views(authors@).len() && author_views(authors@)[w].id == aid;
            assert(authors@[w].id as int == aid);
        }
    }
    rows
}

/// Every book paired with its (possibly empty) authors, computed as one
/// fetch of the book table, one join round trip, and a group-by-parent
/// pass — never one query per book. The output lists every book, in table
/// order; a book with no associations appears with an empty author list.
pub fn get_all_books_and_authors(connection: &mut Catalog) -> (result: Result<
    Vec<(Book, Vec<Author>)>,
    StoreError,
>)
    requires
        old(connection).wf(),
    ensures
        *final(connection) == *old(connection),
        result matches Ok(rows) && rows@.len() == old(connection).books@.len() && (forall|i: int|
            0 <= i < rows@.len() ==> (#[trigger] rows@[i]).0 == old(connection).books@[i]) && (
        forall|i: int|
            0 <= i < rows@.len() ==> author_views((#[trigger] rows@[i]).1@) == matched_authors(
                old(connection).assoc_views(),
                old(connection).author_views(),
                old(connection).books@[i].id as int,
            )),
{
    let all_books = match get_all_books(connection) {
        Ok(v) => v,
        Err(e) => {
            return Err(e);
        },
    };
    let ghost ab = all_books@;
    proof {
        assert forall|i: int, j: int|
            #![trigger ab[i], ab[j]]
            0 <= i < j < ab.len() implies ab[i].id != ab[j].id by {
            assert(connection.books@[i].id != connection.books@[j].id);
        }
    }
    let joined = authors_for_books(&all_books, &connection.authors, &connection.associations);
    let grouped = group_authors_by_book(all_books, joined);
    proof {
        assert forall|i: int| 0 <= i < grouped@.len() implies author_views(
            (#[trigger] grouped@[i]).1@,
        ) == matched_authors(
            connection.assoc_views(),
            connection.author_views(),
            connection.books@[i].id as int,
        ) by {
            assert(book_views(ab)[i].id == ab[i].id as int);
            assert(has_entity(book_views(ab), ab[i].id as int));
        }
    }
    Ok(grouped)
}

/// Every author paired with its (possibly empty) books: the mirror of
/// [`get_all_books_and_authors`], grouped by author id, keeping authors
/// with no books.
pub fn get_all_authors_and_books(connection: &mut Catalog) -> (result: Result<
    Vec<(Author, Vec<Book>)>,
    StoreError,
>)
    requires
        old(connection).wf(),
    ensures
        *final(connection) == *old(connection),
        result matches Ok(rows) && rows@.len() == old(connection).authors@.len() && (forall|i: int|
            0 <= i < rows@.len() ==> (#[trigger] rows@[i]).0 == old(connection).authors@[i]) && (
        forall|i: int|
            0 <= i < rows@.len() ==> book_views((#[trigger] rows@[i]).1@) == matched_books(
                old(connection).assoc_views(),
                old(connection).book_views(),
                old(connection).authors@[i].id as int,
            )),
{
    let all_authors = match get_all_authors(connection) {
        Ok(v) => v,
        Err(e) => {
            return Err(e);
        },
    };
    let ghost aa = all_authors@;
    proof {
        assert forall|i: int, j: int|
            #![trigger aa[i], aa[j]]
            0 <= i < j < aa.len() implies aa[i].id != aa[j].id by {
            assert(connection.authors@[i].id != connection.authors@[j].id);
        }
    }
    let joined = books_for_authors(&all_authors, &connection.books, &connection.associations);
    let grouped = group_books_by_author(all_authors, joined);
    proof {
        assert forall|i: int| 0 <= i < grouped@.len() implies book_views(
            (#[trigger] grouped@[i]).1@,
        ) == matched_books(
            connection.assoc_views(),
            connection.book_views(),
            connection.authors@[i].id as int,
        ) by {
            assert(author_views(aa)[i].id == aa[i].id as int);
            assert(has_entity(author_views(aa), aa[i].id as int));
        }
    }
    Ok(grouped)
}

} // verus!
