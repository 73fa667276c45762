use vstd::prelude::*;

verus! {

/// A name under which records of a sheet can be grouped.
#[derive(Debug)]
pub struct Category {
    pub id: i32,
    pub name: String,
    pub sheet_id: i32,
}

/// A category as the contracts see it.
pub struct CategoryView {
    pub id: int,
    pub name: Seq<char>,
    pub sheet_id: int,
}

impl View for Category {
    type V = CategoryView;

    open spec fn view(&self) -> CategoryView {
        CategoryView { id: self.id as int, name: self.name@, sheet_id: self.sheet_id as int }
    }
}

impl Category {
    /// A category that is not stored yet: id 0.
    pub fn new(name: &str, sheet_id: i32) -> (category: Category)
        ensures
            category@ == (CategoryView { id: 0, name: name@, sheet_id: sheet_id as int }),
    {
        Category { id: 0, name: name.to_owned(), sheet_id }
    }
}

} // verus!
