use vstd::prelude::*;
use vstd::string::StrSliceExecFns;

verus! {

/// The identifier strings that denote the world ("everyone") principal:
/// the well-known alias and its structured identifier form.
pub open spec fn is_everyone(id: Seq<char>) -> bool {
    id == seq!['W', 'D'] || id == seq!['S', '-', '1', '-', '1', '-', '0']
}

/// One-way membership: an entry whose trustee is the world group applies to
/// every principal; any other trustee applies only to an equal identifier.
pub open spec fn spec_matches(holder: Seq<char>, member: Seq<char>) -> bool {
    holder == member || is_everyone(holder)
}

/// A security principal, identified by its canonical identifier string
/// (a well-known two-letter alias such as "WD", or a structured "S-..."
/// identifier). Two trustees are equal iff their identifier strings are.
#[derive(PartialEq, Eq, Debug)]
pub struct Trustee {
    id: String,
}

impl View for Trustee {
    type V = Seq<char>;

    closed spec fn view(&self) -> Seq<char> {
        self.id@
    }
}

impl Clone for Trustee {
    fn clone(&self) -> (r: Self)
        ensures
            r@ == self@,
    {
        Trustee { id: self.id.clone() }
    }
}

impl Trustee {
    pub fn new(id: String) -> (r: Trustee)
        ensures
            r@ == id@,
    {
        Trustee { id }
    }

    pub fn id(&self) -> (r: &str)
        ensures
            r@ == self@,
    {
        self.id.as_str()
    }

    /// Equality of the canonical identifier strings.
    pub fn equals(&self, other: &Trustee) -> (r: bool)
        ensures
            r == (self@ == other@),
    {
        self.id == other.id
    }

    /// Whether this trustee is the world ("everyone") principal.
    pub fn is_world(&self) -> (r: bool)
        ensures
            r == is_everyone(self@),
    {
        let s = self.id.as_str();
        let n = s.unicode_len();
        if n == 2 {
            let r = s.get_char(0) == 'W' && s.get_char(1) == 'D';
            proof {
                if r {
                    assert(self@ =~= seq!['W', 'D']);
                } else {
                    assert(self@ != seq!['W', 'D']);
                    assert(self@.len() != 7);
                }
            }
            r
        } else if n == 7 {
            let r = s.get_char(0) == 'S' && s.get_char(1) == '-' && s.get_char(2) == '1'
                && s.get_char(3) == '-' && s.get_char(4) == '1' && s.get_char(5) == '-'
                && s.get_char(6) == '0';
            proof {
                if r {
                    assert(self@ =~= seq!['S', '-', '1', '-', '1', '-', '0']);
                } else {
                    assert(self@ != seq!['S', '-', '1', '-', '1', '-', '0']);
                    assert(self@.len() != 2);
                }
            }
            r
        } else {
            proof {
                assert(self@.len() != 2 && self@.len() != 7);
            }
            false
        }
    }

    /// Membership test: true when the identifiers are equal or this trustee
    /// is the world group.
    pub fn matches(&self, member: &Trustee) -> (r: bool)
        ensures
            r == spec_matches(self@, member@),
    {
        if self.id == member.id {
            true
        } else {
            self.is_world()
        }
    }
}

} // verus!
