use vstd::prelude::*;

verus! {

/// A book of the read-only dataset; `series` may be empty.
#[derive(Clone, Debug, PartialEq, Eq)]
pub struct Book {
    pub id: i32,
    pub title: String,
    pub author: String,
    pub series: String,
}

/// A technology of the read-only dataset; `category` is a free-text grouping key.
#[derive(Clone, Debug, PartialEq, Eq)]
pub struct Tech {
    pub id: i32,
    pub name: String,
    pub category: String,
    pub subcategory: String,
    pub description: String,
}

/// One row of the many-to-many relation between books and technologies.
#[derive(Clone, Copy, Debug, PartialEq, Eq)]
pub struct BookTechLink {
    pub book_id: i32,
    pub tech_id: i32,
}

/// The last technology of `techs` whose id is `id`, as a lookup table keyed by id
/// built from `techs` in order would hold it.
pub open spec fn lookup_tech(techs: Seq<Tech>, id: i32) -> Option<Tech>
    decreases techs.len(),
{
    if techs.len() == 0 {
        None
    } else if techs.last().id == id {
        Some(techs.last())
    } else {
        lookup_tech(techs.drop_last(), id)
    }
}

/// The last book of `books` whose id is `id`.
pub open spec fn lookup_book(books: Seq<Book>, id: i32) -> Option<Book>
    decreases books.len(),
{
    if books.len() == 0 {
        None
    } else if books.last().id == id {
        Some(books.last())
    } else {
        lookup_book(books.drop_last(), id)
    }
}

pub proof fn lemma_lookup_tech_found(techs: Seq<Tech>, id: i32)
    ensures
        lookup_tech(techs, id) is Some ==> lookup_tech(techs, id)->0.id == id,
        lookup_tech(techs, id) is Some ==> techs.contains(lookup_tech(techs, id)->0),
        lookup_tech(techs, id) is None ==> forall|i: int| 0 <= i < techs.len() ==> techs[i].id != id,
    decreases techs.len(),
{
    if techs.len() > 0 && techs.last().id != id {
        lemma_lookup_tech_found(techs.drop_last(), id);
        if lookup_tech(techs, id) is Some {
            let t = lookup_tech(techs, id)->0;
            let j = choose|j: int| 0 <= j < techs.drop_last().len() && techs.drop_last()[j] == t;
            assert(techs[j] == t);
        }
        assert forall|i: int| 0 <= i < techs.len() - 1 implies techs[i] == techs.drop_last()[i] by {}
    }
}

pub proof fn lemma_lookup_book_found(books: Seq<Book>, id: i32)
    ensures
        lookup_book(books, id) is Some ==> lookup_book(books, id)->0.id == id,
        lookup_book(books, id) is Some ==> books.contains(lookup_book(books, id)->0),
        lookup_book(books, id) is None ==> forall|i: int| 0 <= i < books.len() ==> books[i].id != id,
    decreases books.len(),
{
    if books.len() > 0 && books.last().id != id {
        lemma_lookup_book_found(books.drop_last(), id);
        if lookup_book(books, id) is Some {
            let b = lookup_book(books, id)->0;
            let j = choose|j: int| 0 <= j < books.drop_last().len() && books.drop_last()[j] == b;
            assert(books[j] == b);
        }
        assert forall|i: int| 0 <= i < books.len() - 1 implies books[i] == books.drop_last()[i] by {}
    }
}

/// Finds the technology with id `id`; the last one where several share it.
pub fn find_tech(techs: &Vec<Tech>, id: i32) -> (r: Option<usize>)
    ensures
        r is None <==> lookup_tech(techs@, id) is None,
        r is Some ==> r->0 < techs.len() && lookup_tech(techs@, id) == Some(techs@[r->0 as int]),
{
    let mut i: usize = techs.len();
    assert(techs@.take(i as int) =~= techs@);
    while i > 0
        invariant
            i <= techs.len(),
            lookup_tech(techs@, id) == lookup_tech(techs@.take(i as int), id),
        decreases i,
    {
        let ghost pre = techs@.take(i as int);
        assert(pre.drop_last() =~= techs@.take(i - 1));
        if techs[i - 1].id == id {
            return Some(i - 1);
        }
        i = i - 1;
    }
    None
}

/// Finds the book with id `id`; the last one where several share it.
pub fn find_book(books: &Vec<Book>, id: i32) -> (r: Option<usize>)
    ensures
        r is None <==> lookup_book(books@, id) is None,
        r is Some ==> r->0 < books.len() && lookup_book(books@, id) == Some(books@[r->0 as int]),
{
    let mut i: usize = books.len();
    assert(books@.take(i as int) =~= books@);
    while i > 0
        invariant
            i <= books.len(),
            lookup_book(books@, id) == lookup_book(books@.take(i as int), id),
        decreases i,
    {
        let ghost pre = books@.take(i as int);
        assert(pre.drop_last() =~= books@.take(i - 1));
        if books[i - 1].id == id {
            return Some(i - 1);
        }
        i = i - 1;
    }
    None
}

} // verus!
