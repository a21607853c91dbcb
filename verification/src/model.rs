//! Domain types: a board card and the `(repo, number)` handle that links a
//! sub-issue to its parent card.
use vstd::prelude::*;
use crate::text::{concat, decimal, to_owned_string, u64_decimal};

verus! {

/// A single card on a GitHub Projects v2 board.
#[derive(Debug, PartialEq, Eq)]
pub struct Item {
    /// Project item node id (`PVTI_…`), the handle for status writes.
    pub id: String,
    /// Issue/PR number. `None` for draft items.
    pub number: Option<u64>,
    pub title: String,
    /// `owner/name` of the item's repo. `None` for draft items.
    pub repository: Option<String>,
    /// Board Status column value. `None` if unset.
    pub status: Option<String>,
    pub labels: Vec<String>,
    /// GitHub logins assigned to the item.
    pub assignees: Vec<String>,
    /// Web URL. `None` for drafts.
    pub url: Option<String>,
    /// The issue this card is a sub-issue of, when known.
    pub parent: Option<ParentRef>,
}

/// A reference to an issue by `owner/name` + number.
#[derive(Debug, PartialEq, Eq, Hash)]
pub struct ParentRef {
    pub repository: String,
    pub number: u64,
}

/// The view of a `(repo, number)` handle.
pub type KeyView = (Seq<char>, u64);

/// The view of an optional string.
pub open spec fn opt_view(o: Option<String>) -> Option<Seq<char>> {
    match o {
        Some(s) => Some(s@),
        None => None,
    }
}

/// The views of a list of strings.
pub open spec fn strs_view(v: Seq<String>) -> Seq<Seq<char>> {
    v.map_values(|s: String| s@)
}

impl View for ParentRef {
    type V = KeyView;

    open spec fn view(&self) -> KeyView {
        (self.repository@, self.number)
    }
}

/// The view of an optional handle.
pub open spec fn opt_key_view(o: Option<ParentRef>) -> Option<KeyView> {
    match o {
        Some(p) => Some(p@),
        None => None,
    }
}

/// The mathematical content of a card.
pub struct ItemView {
    pub id: Seq<char>,
    pub number: Option<u64>,
    pub title: Seq<char>,
    pub repository: Option<Seq<char>>,
    pub status: Option<Seq<char>>,
    pub labels: Seq<Seq<char>>,
    pub assignees: Seq<Seq<char>>,
    pub url: Option<Seq<char>>,
    pub parent: Option<KeyView>,
}

impl View for Item {
    type V = ItemView;

    open spec fn view(&self) -> ItemView {
        ItemView {
            id: self.id@,
            number: self.number,
            title: self.title@,
            repository: opt_view(self.repository),
            status: opt_view(self.status),
            labels: strs_view(self.labels@),
            assignees: strs_view(self.assignees@),
            url: opt_view(self.url),
            parent: opt_key_view(self.parent),
        }
    }
}

impl ItemView {
    /// The handle this card is addressed by: `None` unless it has both a repo
    /// and a number.
    pub open spec fn key(self) -> Option<KeyView> {
        match (self.repository, self.number) {
            (Some(r), Some(n)) => Some((r, n)),
            _ => None,
        }
    }
}

/// The views of a list of cards.
pub open spec fn items_view(v: Seq<Item>) -> Seq<ItemView> {
    v.map_values(|it: Item| it@)
}

impl Item {
    /// The `(repo, number)` handle this card is addressed by, for matching
    /// sub-issues to their parent. `None` for drafts (no number, no repo).
    pub fn key(&self) -> (r: Option<ParentRef>)
        ensures
            opt_key_view(r) == self@.key(),
    {
        match (&self.repository, self.number) {
            (Some(repo), Some(n)) => Some(
                ParentRef { repository: to_owned_string(repo.as_str()), number: n },
            ),
            _ => None,
        }
    }

    /// `#365` for issues, `—` for numberless drafts.
    pub fn number_label(&self) -> (r: String)
        ensures
            self.number is None ==> r@ == seq!['\u{2014}'],
            self.number is Some ==> r@ == seq!['#'] + decimal(self.number->0 as nat),
    {
        match self.number {
            Some(n) => {
                let d = u64_decimal(n);
                proof {
                    reveal_strlit("#");
                }
                concat("#", d.as_str())
            },
            None => {
                proof {
                    reveal_strlit("\u{2014}");
                }
                to_owned_string("\u{2014}")
            },
        }
    }
}

impl Clone for ParentRef {
    fn clone(&self) -> (r: Self)
        ensures
            r@ == self@,
    {
        ParentRef { repository: self.repository.clone(), number: self.number }
    }
}

/// A copy of a list of strings.
pub fn clone_strings(v: &Vec<String>) -> (r: Vec<String>)
    ensures
        r@ == v@,
{
    let r = v.clone();
    assert(r@ =~= v@);
    r
}

/// A copy of an optional string.
pub fn clone_opt_string(o: &Option<String>) -> (r: Option<String>)
    ensures
        r == *o,
{
    match o {
        Some(s) => Some(s.clone()),
        None => None,
    }
}

impl Clone for Item {
    fn clone(&self) -> (r: Self)
        ensures
            r@ == self@,
    {
        Item {
            id: self.id.clone(),
            number: self.number,
            title: self.title.clone(),
            repository: clone_opt_string(&self.repository),
            status: clone_opt_string(&self.status),
            labels: clone_strings(&self.labels),
            assignees: clone_strings(&self.assignees),
            url: clone_opt_string(&self.url),
            parent: match &self.parent {
                Some(p) => Some(p.clone()),
                None => None,
            },
        }
    }
}

} // verus!
