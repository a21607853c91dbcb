//! A board's Status field: the ids a status write needs, and option lookup.
use vstd::prelude::*;
use crate::text::{chars_of, eq_ic, eq_ignore_case};
use crate::config::schema::{any_ic, first_ic, is_first_ic};
use crate::model::strs_view;

verus! {

/// A board's Status field: the ids `item-edit` needs plus option name↔id.
#[derive(Debug)]
pub struct StatusField {
    pub project_id: String,
    pub field_id: String,
    pub options: Vec<StatusOption>,
}

/// One option of the Status field.
#[derive(Debug)]
pub struct StatusOption {
    pub id: String,
    pub name: String,
}

impl Clone for StatusOption {
    fn clone(&self) -> (r: Self)
        ensures
            r == *self,
    {
        StatusOption { id: self.id.clone(), name: self.name.clone() }
    }
}

impl StatusField {
    /// The option names, in board order.
    pub open spec fn names_view(self) -> Seq<Seq<char>> {
        self.options@.map_values(|o: StatusOption| o.name@)
    }

    /// The option id for a status name, case-insensitive: the first option
    /// whose name matches.
    pub fn option_id(&self, name: &str) -> (r: Option<&str>)
        ensures
            any_ic(self.names_view(), name@) ==> (r matches Some(id) && id@ == self.options@[first_ic(
                self.names_view(),
                name@,
            )].id@),
            !any_ic(self.names_view(), name@) ==> r is None,
    {
        let ghost names = self.names_view();
        let mut k: usize = 0;
        while k < self.options.len()
            invariant
                k <= self.options@.len(),
                names == self.names_view(),
                names.len() == self.options@.len(),
                forall|j: int| 0 <= j < k ==> !eq_ic(#[trigger] names[j], name@),
            decreases self.options.len() - k,
        {
            assert(names[k as int] == self.options@[k as int].name@);
            if eq_ignore_case(self.options[k].name.as_str(), name) {
                proof {
                    assert(any_ic(names, name@));
                    assert(is_first_ic(names, name@, k as int));
                    let c = first_ic(names, name@);
                    assert(is_first_ic(names, name@, c));
                    if c < k {
                        assert(eq_ic(names[c], name@));
                    } else if c > k {
                        assert(!eq_ic(names[k as int], name@));
                    }
                }
                return Some(self.options[k].id.as_str());
            }
            k += 1;
        }
        None
    }

    /// Option names in board order (drives the mover list).
    pub fn names(&self) -> (r: Vec<String>)
        ensures
            strs_view(r@) == self.names_view(),
    {
        let mut out: Vec<String> = Vec::new();
        let mut k: usize = 0;
        while k < self.options.len()
            invariant
                k <= self.options@.len(),
                out@.len() == k,
                forall|j: int| 0 <= j < k ==> (#[trigger] out@[j])@ == self.options@[j].name@,
            decreases self.options.len() - k,
        {
            out.push(self.options[k].name.clone());
            k += 1;
        }
        assert(strs_view(out@) =~= self.names_view());
        out
    }
}

impl Clone for StatusField {
    fn clone(&self) -> (r: Self)
        ensures
            r.project_id == self.project_id,
            r.field_id == self.field_id,
            r.options@ == self.options@,
    {
        let mut options: Vec<StatusOption> = Vec::new();
        let mut i: usize = 0;
        while i < self.options.len()
            invariant
                i <= self.options@.len(),
                options@ == self.options@.take(i as int),
            decreases self.options.len() - i,
        {
            options.push(self.options[i].clone());
            assert(self.options@.take(i + 1) =~= self.options@.take(i as int).push(
                self.options@[i as int],
            ));
            i += 1;
        }
        assert(self.options@.take(self.options@.len() as int) =~= self.options@);
        StatusField {
            project_id: self.project_id.clone(),
            field_id: self.field_id.clone(),
            options,
        }
    }
}

} // verus!
