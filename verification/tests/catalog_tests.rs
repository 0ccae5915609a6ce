use bookstore::queries::author_queries::{create_author, get_author_by_id, update_author};
use bookstore::queries::book_author_queries::{
    associate_book_with_author, get_all_authors_and_books, get_all_books_and_authors,
    get_author_with_books, get_book_with_authors,
};
use bookstore::queries::book_queries::{
    create_book, delete_book, get_all_books, get_book_by_id, update_book,
};
use bookstore::seed::{seed_catalog, SeedError};
use bookstore::store::{Catalog, StoreError};

#[test]
fn created_entity_round_trips() {
    let connection = &mut Catalog::new();
    let id = create_book("Pale Fire", connection).unwrap();
    let fetched = get_book_by_id(id, connection).unwrap().unwrap();
    assert_eq!(fetched.id, id);
    assert_eq!(fetched.name, "Pale Fire");

    let author_id = create_author("Vladimir Nabokov", connection).unwrap();
    let fetched_author = get_author_by_id(author_id, connection).unwrap().unwrap();
    assert_eq!(fetched_author.name, "Vladimir Nabokov");
}

#[test]
fn generated_ids_are_distinct_per_table() {
    let connection = &mut Catalog::new();
    let b1 = create_book("one", connection).unwrap();
    let b2 = create_book("one", connection).unwrap();
    assert_ne!(b1, b2);

    let a1 = create_author("one", connection).unwrap();
    assert_ne!(a1, create_author("one", connection).unwrap());
}

#[test]
fn update_twice_with_same_name_changes_nothing_more() {
    let connection = &mut Catalog::new();
    let id = create_book("draft", connection).unwrap();
    update_book(id, "final title", connection).unwrap();
    let after_first = get_book_by_id(id, connection).unwrap().unwrap();
    update_book(id, "final title", connection).unwrap();
    let after_second = get_book_by_id(id, connection).unwrap().unwrap();
    assert_eq!(after_first.id, after_second.id);
    assert_eq!(after_first.name, after_second.name);
    assert_eq!(after_second.name, "final title");
}

#[test]
fn update_of_absent_id_is_a_no_op() {
    let connection = &mut Catalog::new();
    let id = create_book("kept", connection).unwrap();
    update_book(id + 1, "ignored", connection).unwrap();
    let kept = get_book_by_id(id, connection).unwrap().unwrap();
    assert_eq!(kept.name, "kept");
    assert_eq!(get_all_books(connection).unwrap().len(), 1);
}

#[test]
fn delete_is_final_and_absent_delete_is_a_no_op() {
    let connection = &mut Catalog::new();
    let id = create_book("doomed", connection).unwrap();
    delete_book(id, connection).unwrap();
    assert!(get_book_by_id(id, connection).unwrap().is_none());

    delete_book(id, connection).unwrap();
    assert!(get_book_by_id(id, connection).unwrap().is_none());
}

#[test]
fn moby_dick_scenario() {
    let connection = &mut Catalog::new();
    let book_id = create_book("Moby Dick", connection).unwrap();
    let author_id = create_author("Herman Melville", connection).unwrap();
    associate_book_with_author(book_id, author_id, connection).unwrap();

    let (book, authors) = get_book_with_authors(book_id, connection).unwrap().unwrap();
    assert_eq!(book.name, "Moby Dick");
    assert_eq!(authors.len(), 1);
    assert_eq!(authors[0].name, "Herman Melville");
}

#[test]
fn all_books_keep_zero_match_parents() {
    let connection = &mut Catalog::new();
    let b1 = create_book("B1", connection).unwrap();
    let b2 = create_book("B2", connection).unwrap();
    let b3 = create_book("B3", connection).unwrap();
    let a1 = create_author("A1", connection).unwrap();
    let a2 = create_author("A2", connection).unwrap();
    associate_book_with_author(b2, a1, connection).unwrap();
    associate_book_with_author(b3, a1, connection).unwrap();
    associate_book_with_author(b3, a2, connection).unwrap();

    let all_books = get_all_books(connection).unwrap();
    let grouped = get_all_books_and_authors(connection).unwrap();

    // every fetched book appears, in the same order
    assert_eq!(grouped.len(), all_books.len());
    for (fetched, (book, _)) in all_books.iter().zip(grouped.iter()) {
        assert_eq!(fetched.id, book.id);
        assert_eq!(fetched.name, book.name);
    }

    let authors_of = |id: i32| -> Vec<i32> {
        let (_, authors) = grouped.iter().find(|(b, _)| b.id == id).unwrap().clone();
        authors.iter().map(|a| a.id).collect()
    };
    assert!(authors_of(b1).is_empty());
    assert_eq!(authors_of(b2), vec![a1]);
    let mut b3_authors = authors_of(b3);
    b3_authors.sort();
    assert_eq!(b3_authors, vec![a1, a2]);
}

#[test]
fn all_authors_keep_zero_match_parents() {
    let connection = &mut Catalog::new();
    let b1 = create_book("B1", connection).unwrap();
    let a1 = create_author("with a book", connection).unwrap();
    let a2 = create_author("without a book", connection).unwrap();
    associate_book_with_author(b1, a1, connection).unwrap();

    let grouped = get_all_authors_and_books(connection).unwrap();
    assert_eq!(grouped.len(), 2);
    let books_of = |id: i32| -> Vec<i32> {
        let (_, books) = grouped.iter().find(|(a, _)| a.id == id).unwrap().clone();
        books.iter().map(|b| b.id).collect()
    };
    assert_eq!(books_of(a1), vec![b1]);
    assert!(books_of(a2).is_empty());
}

#[test]
fn association_is_symmetric() {
    let connection = &mut Catalog::new();
    let book_id = create_book("Omoo", connection).unwrap();
    let author_id = create_author("Herman Melville", connection).unwrap();
    associate_book_with_author(book_id, author_id, connection).unwrap();

    let (_, books) = get_author_with_books(author_id, connection).unwrap().unwrap();
    assert!(books.iter().any(|b| b.id == book_id));

    let (_, authors) = get_book_with_authors(book_id, connection).unwrap().unwrap();
    assert!(authors.iter().any(|a| a.id == author_id));
}

#[test]
fn aggregates_return_none_for_absent_ids() {
    let connection = &mut Catalog::new();
    let book_id = create_book("alone", connection).unwrap();
    assert!(get_author_with_books(17, connection).unwrap().is_none());
    assert!(get_book_with_authors(book_id + 1, connection).unwrap().is_none());
}

#[test]
fn associating_the_same_pair_twice_fails_the_second_call() {
    let connection = &mut Catalog::new();
    let book_id = create_book("Omoo", connection).unwrap();
    let author_id = create_author("Herman Melville", connection).unwrap();

    assert!(associate_book_with_author(book_id, author_id, connection).is_ok());

    let second = associate_book_with_author(book_id, author_id, connection);
    assert_eq!(second, Err(StoreError::DuplicateAssociation { book_id, author_id }));
}

#[test]
fn associating_an_unknown_book_or_author_fails() {
    let connection = &mut Catalog::new();
    let book_id = create_book("real book", connection).unwrap();
    let author_id = create_author("real author", connection).unwrap();

    let no_book = associate_book_with_author(book_id + 5, author_id, connection);
    assert_eq!(no_book, Err(StoreError::MissingBook { book_id: book_id + 5 }));

    let no_author = associate_book_with_author(book_id, author_id + 5, connection);
    assert_eq!(no_author, Err(StoreError::MissingAuthor { author_id: author_id + 5 }));

    // failed attempts wrote nothing
    let (_, authors) = get_book_with_authors(book_id, connection).unwrap().unwrap();
    assert!(authors.is_empty());
}

#[test]
fn seeding_with_an_unknown_pair_name_aborts() {
    let connection = &mut Catalog::new();
    let seed_books = vec!["Moby Dick".to_string()];
    let seed_authors = vec!["Herman Melville".to_string()];
    let seed_pairs = vec![
        ("Moby Dick".to_string(), "Herman Melville".to_string()),
        ("Typee".to_string(), "Herman Melville".to_string()),
    ];

    let outcome = seed_catalog(&seed_books, &seed_authors, &seed_pairs, connection);
    assert_eq!(outcome, Err(SeedError::UnknownBookName { pair_index: 1 }));

    // the entities were created, but no association was written
    assert_eq!(get_all_books(connection).unwrap().len(), 1);
    assert!(connection.associations.is_empty());

    let bad_author_pairs = vec![("Moby Dick".to_string(), "Nobody".to_string())];
    let second = seed_catalog(&seed_books, &seed_authors, &bad_author_pairs, connection);
    assert_eq!(second, Err(SeedError::UnknownAuthorName { pair_index: 0 }));
}

#[test]
fn seeding_twice_trips_the_association_key() {
    let connection = &mut Catalog::new();
    let seed_books = vec!["Moby Dick".to_string()];
    let seed_authors = vec!["Herman Melville".to_string()];
    let seed_pairs = vec![("Moby Dick".to_string(), "Herman Melville".to_string())];

    seed_catalog(&seed_books, &seed_authors, &seed_pairs, connection).unwrap();

    // a second run resolves its pairs against its own freshly created rows,
    // so the clash has to come from a pair repeated within one run
    let repeated = vec![
        ("Moby Dick".to_string(), "Herman Melville".to_string()),
        ("Moby Dick".to_string(), "Herman Melville".to_string()),
    ];
    let outcome = seed_catalog(&seed_books, &seed_authors, &repeated, connection);
    assert!(matches!(outcome, Err(SeedError::Store(StoreError::DuplicateAssociation { .. }))));
}

#[test]
fn dangling_associations_survive_entity_deletion() {
    // whether deletes cascade is the schema's policy; this store keeps the
    // join rows, and the aggregates simply no longer match them
    let connection = &mut Catalog::new();
    let book_id = create_book("gone soon", connection).unwrap();
    let author_id = create_author("stays", connection).unwrap();
    associate_book_with_author(book_id, author_id, connection).unwrap();
    delete_book(book_id, connection).unwrap();

    assert_eq!(connection.associations.len(), 1);
    let (_, books) = get_author_with_books(author_id, connection).unwrap().unwrap();
    assert!(books.is_empty());
}

#[test]
fn grouping_is_by_identifier_not_name() {
    let connection = &mut Catalog::new();
    let b1 = create_book("same name", connection).unwrap();
    let b2 = create_book("same name", connection).unwrap();
    let a1 = create_author("the author", connection).unwrap();
    associate_book_with_author(b2, a1, connection).unwrap();

    let grouped = get_all_books_and_authors(connection).unwrap();
    assert_eq!(grouped.len(), 2);
    for (book, authors) in grouped {
        if book.id == b1 {
            assert!(authors.is_empty());
        } else {
            assert_eq!(book.id, b2);
            assert_eq!(authors.len(), 1);
        }
    }
}
