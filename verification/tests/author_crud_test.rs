use bookstore::queries::author_queries::{
    create_author, delete_author, get_all_authors, get_author_by_id, update_author,
};
use bookstore::store::Catalog;

#[test]
fn create_author_test() {
    let connection = &mut Catalog::new();
    let new_author_name = "New Author Test";
    let created_author_id = create_author(new_author_name, connection).unwrap();

    let db_author = get_author_by_id(created_author_id, connection).unwrap();

    assert!(db_author.is_some_and(|db_author| db_author.name == *new_author_name));
}

#[test]
fn get_all_authors_test() {
    let connection = &mut Catalog::new();
    let author_1_name = "first author";
    let author_2_name = "second author";
    let created_author_1 = create_author(author_1_name, connection).unwrap();
    let created_author_2 = create_author(author_2_name, connection).unwrap();
    let db_authors = get_all_authors(connection).unwrap();

    assert!(db_authors.len() >= 2);

    for db_author in db_authors {
        if db_author.id == created_author_1 {
            assert_eq!(db_author.name, author_1_name);
        } else if db_author.id == created_author_2 {
            assert_eq!(db_author.name, author_2_name);
        }
    }
}

#[test]
fn get_one_author_test() {
    let connection = &mut Catalog::new();
    let author_name = "author name";
    let created_author_id = create_author(author_name, connection).unwrap();
    let db_author = get_author_by_id(created_author_id, connection).unwrap();

    assert!(db_author.is_some_and(|author| author.name == author_name));
}

#[test]
fn update_author_test() {
    let connection = &mut Catalog::new();
    let original_name = "new author";
    let new_name = "I am a new author";
    let author_id = create_author(original_name, connection).unwrap();

    update_author(author_id, new_name, connection).unwrap();

    let db_author = get_author_by_id(author_id, connection).unwrap();

    assert!(db_author.is_some_and(|author| author.name == new_name));
}

#[test]
fn delete_author_test() {
    let connection = &mut Catalog::new();
    let author_name = "author name";
    let created_author_id = create_author(author_name, connection).unwrap();

    delete_author(created_author_id, connection).unwrap();

    let deleted_author = get_author_by_id(created_author_id, connection).unwrap();

    assert!(deleted_author.is_none());
}
