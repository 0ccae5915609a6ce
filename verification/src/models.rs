use vstd::prelude::*;

verus! {

/// Mathematical view of a stored row: its generated identifier and its name.
///
/// Books and authors share this shape but live in independent identity
/// spaces; the contracts keep them apart by always pairing a view with the
/// table it came from.
#[verifier::ext_equal]
pub ghost struct EntityV {
    pub id: int,
    pub name: Seq<char>,
}

/// A book row: generated unique identifier plus a name.
#[derive(Debug)]
pub struct Book {
    pub id: i32,
    pub name: String,
}

impl View for Book {
    type V = EntityV;

    open spec fn view(&self) -> EntityV {
        EntityV { id: self.id as int, name: self.name@ }
    }
}

impl Clone for Book {
    fn clone(&self) -> (r: Self)
        ensures
            r == *self,
    {
        Book { id: self.id, name: self.name.clone() }
    }
}

/// A book to be inserted: the store generates the identifier.
#[derive(Debug)]
pub struct NewBook {
    pub name: String,
}

impl View for NewBook {
    type V = Seq<char>;

    open spec fn view(&self) -> Seq<char> {
        self.name@
    }
}

/// An author row: generated unique identifier plus a name.
#[derive(Debug)]
pub struct Author {
    pub id: i32,
    pub name: String,
}

impl View for Author {
    type V = EntityV;

    open spec fn view(&self) -> EntityV {
        EntityV { id: self.id as int, name: self.name@ }
    }
}

impl Clone for Author {
    fn clone(&self) -> (r: Self)
        ensures
            r == *self,
    {
        Author { id: self.id, name: self.name.clone() }
    }
}

/// An author to be inserted: the store generates the identifier.
#[derive(Debug)]
pub struct NewAuthor {
    pub name: String,
}

impl View for NewAuthor {
    type V = Seq<char>;

    open spec fn view(&self) -> Seq<char> {
        self.name@
    }
}

/// A join-table row linking one book to one author. Its identity is the
/// composite pair; there is no surrogate key and no payload beyond the two
/// foreign keys.
#[derive(Debug, Clone, Copy, PartialEq, Eq, Structural)]
pub struct BookAuthor {
    pub book_id: i32,
    pub author_id: i32,
}

impl View for BookAuthor {
    type V = (int, int);

    open spec fn view(&self) -> (int, int) {
        (self.book_id as int, self.author_id as int)
    }
}

/// An association to be inserted, written with the same fields as the stored
/// row since the store generates nothing for it.
#[derive(Debug, Clone, Copy, PartialEq, Eq, Structural)]
pub struct NewBookAuthor {
    pub book_id: i32,
    pub author_id: i32,
}

impl View for NewBookAuthor {
    type V = (int, int);

    open spec fn view(&self) -> (int, int) {
        (self.book_id as int, self.author_id as int)
    }
}

/// The views of a sequence of book rows.
pub open spec fn book_views(s: Seq<Book>) -> Seq<EntityV> {
    s.map_values(|b: Book| b@)
}

/// The views of a sequence of author rows.
pub open spec fn author_views(s: Seq<Author>) -> Seq<EntityV> {
    s.map_values(|a: Author| a@)
}

/// The views of a sequence of association rows, as (book id, author id) pairs.
pub open spec fn assoc_views(s: Seq<BookAuthor>) -> Seq<(int, int)> {
    s.map_values(|p: BookAuthor| p@)
}

} // verus!
