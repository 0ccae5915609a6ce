use bookstore::queries::book_queries::{
    create_book, delete_book, get_all_books, get_book_by_id, update_book,
};
use bookstore::store::Catalog;

#[test]
fn create_book_test() {
    let connection = &mut Catalog::new();
    let new_book_name = "new book";
    let created_book_id = create_book(new_book_name, connection).unwrap();

    let db_book = get_book_by_id(created_book_id, connection).unwrap();

    assert!(db_book.is_some_and(|db_book| db_book.name == new_book_name));
}

#[test]
fn get_all_books_test() {
    let connection = &mut Catalog::new();
    let book_1_name = "first book";
    let book_2_name = "second book";
    let created_book_1 = create_book(book_1_name, connection).unwrap();
    let created_book_2 = create_book(book_2_name, connection).unwrap();
    let db_books = get_all_books(connection).unwrap();

    assert!(db_books.len() >= 2);

    for db_book in db_books {
        if db_book.id == created_book_1 {
            assert_eq!(db_book.name, book_1_name);
        } else if db_book.id == created_book_2 {
            assert_eq!(db_book.name, book_2_name);
        }
    }
}

#[test]
fn get_one_book_test() {
    let connection = &mut Catalog::new();
    let book_name = "book name";
    let created_book_id = create_book(book_name, connection).unwrap();
    let db_book = get_book_by_id(created_book_id, connection).unwrap();

    assert!(db_book.is_some_and(|book| book.name == book_name));
}

#[test]
fn update_book_test() {
    let connection = &mut Catalog::new();
    let original_name = "new book";
    let new_name = "I am a new book";
    let book_id = create_book(original_name, connection).unwrap();

    update_book(book_id, new_name, connection).unwrap();

    let db_book = get_book_by_id(book_id, connection).unwrap();

    assert!(db_book.is_some_and(|book| book.name == new_name));
}

#[test]
fn delete_book_test() {
    let connection = &mut Catalog::new();
    let book_name = "book name";
    let created_book_id = create_book(book_name, connection).unwrap();

    delete_book(created_book_id, connection).unwrap();

    let deleted_book = get_book_by_id(created_book_id, connection).unwrap();

    assert!(deleted_book.is_none());
}
