use vstd::prelude::*;

use crate::flow::{BuildContext, BuildUnit, Outcome, Task};

verus! {

broadcast use vstd::string::is_ascii_spec_bytes;

/// A character allowed in a unit's name: an ASCII letter or digit, `_` or `-`.
pub open spec fn name_char(c: char) -> bool {
    ('a' <= c <= 'z') || ('A' <= c <= 'Z') || ('0' <= c <= '9') || c == '_' || c == '-'
}

pub open spec fn valid_name(s: Seq<char>) -> bool {
    forall|i: int| 0 <= i < s.len() ==> name_char(#[trigger] s[i])
}

/// Whether every character of `name` is allowed in a unit's name.
pub fn is_valid_name(name: &String) -> (r: bool)
    ensures
        r == valid_name(name@),
{
    let s = name.as_str();
    if !s.is_ascii() {
        assert(!valid_name(name@)) by {
            let i = choose|i: int| 0 <= i < s@.len() && !('\0' <= #[trigger] s@[i] <= '\u{7f}');
            assert(!name_char(s@[i]));
        }
        return false;
    }
    let b = s.as_bytes();
    assert(b@ =~= Seq::new(s@.len(), |i| s@.index(i) as u8));
    let mut i: usize = 0;
    while i < b.len()
        invariant
            b@.len() == name@.len(),
            i <= b.len(),
            forall|k: int| 0 <= k < name@.len() ==> '\0' <= #[trigger] name@[k] <= '\u{7f}',
            forall|k: int| 0 <= k < name@.len() ==> b@[k] == name@[k] as u8,
            forall|k: int| 0 <= k < i ==> name_char(#[trigger] name@[k]),
        decreases b.len() - i,
    {
        let c: u8 = b[i];
        assert(c == name@[i as int] as u8);
        let ok = (97 <= c && c <= 122) || (65 <= c && c <= 90) || (48 <= c && c <= 57) || c == 95 || c == 45;
        if !ok {
            assert(!name_char(name@[i as int]));
            return false;
        }
        i = i + 1;
    }
    true
}

/// The structural checks of a unit.
pub enum NameCheck {
    /// The name must not be empty.
    NotEmpty,
    /// The name may hold only letters, digits, `_` and `-`.
    ValidName,
}

/// What a name check comes to on a unit's name.
pub open spec fn name_check_fails(check: NameCheck, name: Seq<char>) -> bool {
    match check {
        NameCheck::NotEmpty => name.len() == 0,
        NameCheck::ValidName => !valid_name(name),
    }
}

impl NameCheck {
    /// Checks a unit's name: a failure where the check does not hold, else
    /// success.
    pub fn check(&self, unit: &BuildUnit) -> (r: Outcome)
        ensures
            (r is Failure) == name_check_fails(*self, unit.name@),
            !(r is Failure) ==> r is Success,
    {
        match self {
            NameCheck::NotEmpty => {
                if unit.name.as_str().is_empty() {
                    let mut msgs: Vec<String> = Vec::new();
                    msgs.push("a unit has an empty name".to_owned());
                    Outcome::Failure("ValidationError".to_owned(), msgs)
                } else {
                    Outcome::Success
                }
            },
            NameCheck::ValidName => {
                if is_valid_name(&unit.name) {
                    Outcome::Success
                } else {
                    let mut msg = unit.name.clone();
                    msg.append(" is not a valid name");
                    let mut msgs: Vec<String> = Vec::new();
                    msgs.push(msg);
                    Outcome::Failure("ValidationError".to_owned(), msgs)
                }
            },
        }
    }
}

impl Task for NameCheck {
    /// A name check fails exactly where its rule does not hold; the whole
    /// run has nothing to check.
    open spec fn allows_outcome(&self, unit: Option<BuildUnit>, o: Outcome) -> bool {
        match unit {
            Some(u) => (o is Failure) == name_check_fails(*self, u.name@) && (!(o is Failure) ==> o is Success),
            None => o is Success,
        }
    }

    /// Checks the unit's name; there is nothing to check for the whole run.
    fn execute(&self, unit: Option<&BuildUnit>, ctx: &mut BuildContext) -> (r: Outcome) {
        match unit {
            Some(u) => self.check(u),
            None => Outcome::Success,
        }
    }
}

} // verus!
