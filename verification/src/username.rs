//! Usernames.
use crate::error::TextValidityError;
use crate::text::trimmed;
use vstd::prelude::*;

verus! {

/// This struct has only one purpose: ensure that the username is not longer than a certain length.
#[derive(Debug, PartialEq)]
pub struct Username(String);

impl View for Username {
    type V = Seq<char>;

    closed spec fn view(&self) -> Seq<char> {
        self.0@
    }
}

impl Clone for Username {
    fn clone(&self) -> (r: Self)
        ensures
            r == *self,
    {
        proof {
            use_type_invariant(self);
        }
        Username(self.0.clone())
    }
}

/// What comes of a candidate for a username.
pub open spec fn is_username_outcome(
    candidate: Seq<char>,
    r: Result<Username, TextValidityError>,
) -> bool {
    match r {
        Ok(username) => username.valid() && username@ == candidate,
        Err(err) => {
            &&& candidate.len() > Username::MAX_LEN
            &&& err.is_too_long("username"@, candidate, Username::MAX_LEN)
        },
    }
}

/// What comes of a line that a user typed for a username.
pub open spec fn is_line_outcome(
    line: Seq<char>,
    r: Result<Username, TextValidityError>,
) -> bool {
    is_username_outcome(trimmed(line), r)
}

impl Username {
    /// Maximal length (in chars) of the username.
    pub const MAX_LEN: usize = 32;

    /// The username is no longer than it may be.
    #[verifier::type_invariant]
    pub open spec fn valid(&self) -> bool {
        self@.len() <= Username::MAX_LEN
    }

    /// Takes the candidate for a username if it is not too long.
    pub fn new(username_candidate: &str) -> (r: Result<Username, TextValidityError>)
        ensures
            is_username_outcome(username_candidate@, r),
    {
        let actual_len: usize = username_candidate.unicode_len();
        if actual_len > Username::MAX_LEN {
            return Err(
                TextValidityError::TooLong {
                    kind_of_entity: "username".to_owned(),
                    actual_entity: username_candidate.to_owned(),
                    max_len: Username::MAX_LEN,
                    actual_len,
                },
            );
        }
        Ok(Username(username_candidate.to_owned()))
    }

    /// Takes the line that a user typed, without the white space around it, for a username if it
    /// is not too long.
    pub fn from_line(line: &str) -> (r: Result<Username, TextValidityError>)
        ensures
            is_line_outcome(line@, r),
    {
        Username::new(line.trim())
    }

    /// The text of the username.
    pub fn to_string(&self) -> (r: String)
        ensures
            r@ == self@,
            self.valid(),
    {
        proof {
            use_type_invariant(self);
        }
        self.0.clone()
    }

    /// The text of the username.
    pub fn as_str(&self) -> (r: &str)
        ensures
            r@ == self@,
            self.valid(),
    {
        proof {
            use_type_invariant(self);
        }
        self.0.as_str()
    }
}

} // verus!
