//! The task items and the ordered store that holds them.

use vstd::prelude::*;

verus! {

/// One task entry: a description, its creation time in whole seconds since
/// the Unix epoch, and a completion flag. The description is kept as a
/// sequence of code points so that cursor movement and wrapping can be
/// stated per character.
pub struct BacklogItem {
    pub description: Vec<char>,
    pub created_at: i64,
    pub done: bool,
}

/// Mathematical model of one task entry.
pub struct ItemModel {
    pub description: Seq<char>,
    pub created_at: int,
    pub done: bool,
}

impl View for BacklogItem {
    type V = ItemModel;

    open spec fn view(&self) -> ItemModel {
        ItemModel {
            description: self.description@,
            created_at: self.created_at as int,
            done: self.done,
        }
    }
}

/// The ordered store of task items. Order is significant: it is the
/// iteration order for numbering and persistence, and changes only through
/// explicit insert, remove and move operations.
pub struct Backlog {
    pub items: Vec<BacklogItem>,
}

impl View for Backlog {
    type V = Seq<ItemModel>;

    open spec fn view(&self) -> Seq<ItemModel> {
        self.items@.map_values(|it: BacklogItem| it@)
    }
}

/// Copies a description character by character.
pub fn clone_chars(v: &Vec<char>) -> (r: Vec<char>)
    ensures
        r@ == v@,
{
    let mut r: Vec<char> = Vec::new();
    let mut i: usize = 0;
    while i < v.len()
        invariant
            i <= v.len(),
            r@ == v@.take(i as int),
        decreases v.len() - i,
    {
        r.push(v[i]);
        proof {
            assert(v@.take(i + 1 as int) =~= v@.take(i as int).push(v@[i as int]));
        }
        i = i + 1;
    }
    proof {
        assert(v@.take(v@.len() as int) =~= v@);
    }
    r
}

} // verus!
