//! User-facing form data whose rules are plain text checks.

use vstd::prelude::*;

verus! {

/// Credentials as a login or signup form hands them over.
pub struct UserCredentials<'a> {
    pub email: &'a str,
    pub password: &'a str,
}

impl<'a> UserCredentials<'a> {
    /// A password must run from eight to five hundred and twelve characters;
    /// outside that, the returned message says which bound failed.
    pub fn check_password_for_issues(&self) -> (r: Option<&'static str>)
        ensures
            self.password@.len() < 8 ==> (r matches Some(m) && m@
                == "Password must be at least 8 characters"@),
            self.password@.len() > 512 ==> (r matches Some(m) && m@
                == "Password can not be more than 512 characters"@),
            8 <= self.password@.len() <= 512 ==> r is None,
    {
        let character_count = self.password.unicode_len();
        if character_count < 8 {
            return Some("Password must be at least 8 characters");
        }
        if character_count > 512 {
            return Some("Password can not be more than 512 characters");
        }
        None
    }
}

} // verus!
