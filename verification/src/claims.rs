use crate::json::{find_member, member_text, members_view};
use crate::token::distinct_keys;
use vstd::prelude::*;

verus! {

/// The claims of one token: each claim's name with the JSON text of its
/// value. No name occurs twice.
pub struct Claims {
    members: Vec<(String, String)>,
}

impl View for Claims {
    type V = Seq<(Seq<char>, Seq<char>)>;

    closed spec fn view(&self) -> Seq<(Seq<char>, Seq<char>)> {
        members_view(self.members@)
    }
}

impl Claims {
    #[verifier::type_invariant]
    spec fn unique_names(self) -> bool {
        distinct_keys(members_view(self.members@))
    }

    /// Claims made of the given names and values, or `None` when a name
    /// comes twice.
    pub fn new(members: Vec<(String, String)>) -> (r: Option<Self>)
        ensures
            match r {
                Some(claims) => claims@ == members_view(members@) && distinct_keys(claims@),
                None => !distinct_keys(members_view(members@)),
            },
    {
        let ghost all = members_view(members@);
        let mut j: usize = 0;
        while j < members.len()
            invariant
                j <= members.len(),
                all == members_view(members@),
                forall|a: int, b: int|
                    0 <= a < b < j ==> (#[trigger] all[a]).0 != (#[trigger] all[b]).0,
            decreases members.len() - j,
        {
            let mut i: usize = 0;
            while i < j
                invariant
                    i <= j < members.len(),
                    all == members_view(members@),
                    forall|a: int| 0 <= a < i ==> (#[trigger] all[a]).0 != all[j as int].0,
                decreases j - i,
            {
                if members[i].0 == members[j].0 {
                    assert(all[i as int].0 == all[j as int].0);
                    return None;
                }
                i = i + 1;
            }
            j = j + 1;
        }
        Some(Claims { members })
    }

    /// Claims made of names and values of which no name comes twice.
    pub(crate) fn from_distinct(members: Vec<(String, String)>) -> (claims: Self)
        requires
            distinct_keys(members_view(members@)),
        ensures
            claims@ == members_view(members@),
    {
        Claims { members }
    }

    /// The number of claims.
    pub fn len(&self) -> (n: usize)
        ensures
            n == self@.len(),
    {
        self.members.len()
    }

    /// Whether there is no claim at all.
    pub fn is_empty(&self) -> (b: bool)
        ensures
            b == (self@.len() == 0),
    {
        self.members.len() == 0
    }

    /// The JSON text of the value claimed under `name`.
    pub fn get(&self, name: &str) -> (r: Option<&String>)
        ensures
            match r {
                Some(text) => member_text(self@, name@) == Some(text@),
                None => member_text(self@, name@) is None,
            },
    {
        find_member(&self.members, name)
    }

    /// The names and values, in the order they are held.
    pub fn members(&self) -> (r: &Vec<(String, String)>)
        ensures
            members_view(r@) == self@,
            distinct_keys(self@),
    {
        proof {
            use_type_invariant(self);
        }
        &self.members
    }
}

} // verus!
