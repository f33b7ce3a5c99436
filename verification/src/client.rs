//! The album client: the addresses it asks, the login form it sends and how
//! it reads the answers.

use vstd::prelude::*;
use crate::controller::Failure;
use crate::feed::{auth_token, is_token, token_marker};
use crate::text::{append_chars, format_decimal, from_chars, to_chars};
use crate::text::{contains, decimal};

verus! {

/// The session has expired: the server turned a request away.
#[derive(Clone, Copy, Debug, PartialEq, Eq, Structural)]
pub struct AuthError;

/// Why a login did not go through.
#[derive(Clone, Copy, Debug, PartialEq, Eq, Structural)]
pub enum AuthFailure {
    /// The login page was not served.
    LoginPageUnavailable,
    /// The login page holds no token.
    TokenMissing,
    /// The server did not accept the login.
    Rejected,
}

/// The address under which albums are served.
pub open spec fn album_root() -> Seq<char> {
    "https://mitene.us/f/"@
}

/// The status with which the server turns away an expired session.
pub const FORBIDDEN: u16 = 403;

/// What the client knows of an album: where it is, how to log in and where
/// its files go.
#[derive(Clone, Debug)]
pub struct FamilyAlbumClient {
    base_address: String,
    password: String,
    output_directory: String,
    auth_token: Option<String>,
}

impl FamilyAlbumClient {
    /// The address of the album.
    pub closed spec fn spec_base_address(&self) -> Seq<char> {
        self.base_address@
    }

    /// The password of the album.
    pub closed spec fn spec_password(&self) -> Seq<char> {
        self.password@
    }

    /// The directory that the files go to.
    pub closed spec fn spec_output_directory(&self) -> Seq<char> {
        self.output_directory@
    }

    /// The token of the last login that went through.
    pub closed spec fn spec_auth_token(&self) -> Option<Seq<char>> {
        match self.auth_token {
            Some(token) => Some(token@),
            None => None,
        }
    }

    /// The address of the login page.
    pub open spec fn spec_login_url(&self) -> Seq<char> {
        self.spec_base_address() + "/login"@
    }

    /// The address of page `page` of the feed.
    pub open spec fn spec_page_url(&self, page: int) -> Seq<char> {
        self.spec_base_address() + "?page="@ + decimal(page)
    }

    /// A client for the album `id_token`, not yet logged in.
    pub fn new(id_token: &str, password: &str, output_directory: &str) -> (client:
        FamilyAlbumClient)
        ensures
            client.spec_base_address() == album_root() + id_token@,
            client.spec_password() == password@,
            client.spec_output_directory() == output_directory@,
            client.spec_auth_token() is None,
    {
        let mut base = to_chars("https://mitene.us/f/");
        append_chars(&mut base, &to_chars(id_token));
        FamilyAlbumClient {
            base_address: from_chars(&base),
            password: password.to_owned(),
            output_directory: output_directory.to_owned(),
            auth_token: None,
        }
    }

    /// The directory that the files go to.
    pub fn output_directory(&self) -> (r: &str)
        ensures
            r@ == self.spec_output_directory(),
    {
        self.output_directory.as_str()
    }

    /// The token of the last login that went through.
    pub fn token(&self) -> (r: Option<String>)
        ensures
            match r {
                Some(token) => self.spec_auth_token() == Some(token@),
                None => self.spec_auth_token() is None,
            },
    {
        match &self.auth_token {
            Some(token) => Some(token.clone()),
            None => None,
        }
    }

    /// The address of the login page, to read and to post to.
    pub fn login_url(&self) -> (r: String)
        ensures
            r@ == self.spec_login_url(),
    {
        let mut address = to_chars(self.base_address.as_str());
        append_chars(&mut address, &to_chars("/login"));
        from_chars(&address)
    }

    /// The address of page `page` of the feed.
    pub fn page_url(&self, page: i32) -> (r: String)
        ensures
            r@ == self.spec_page_url(page as int),
    {
        let mut address = to_chars(self.base_address.as_str());
        append_chars(&mut address, &to_chars("?page="));
        append_chars(&mut address, &format_decimal(page));
        from_chars(&address)
    }

    /// Reads the answer to the request for the login page: the token of the
    /// form on it. A page that was not served, or one without a token, ends
    /// the login.
    pub fn read_login_page(&self, served: bool, page: &str) -> (r: Result<String, AuthFailure>)
        ensures
            match r {
                Ok(token) => served && is_token(page@, token@),
                Err(AuthFailure::LoginPageUnavailable) => !served,
                Err(AuthFailure::TokenMissing) => served && !contains(page@, token_marker()),
                Err(AuthFailure::Rejected) => false,
            },
    {
        if !served {
            return Err(AuthFailure::LoginPageUnavailable);
        }
        match auth_token(page) {
            Some(token) => Ok(token),
            None => Err(AuthFailure::TokenMissing),
        }
    }

    /// The fields of the login form, in the order in which they are sent: the
    /// token, the password and the button. No field name occurs twice.
    pub fn login_form(&self, token: &str) -> (fields: Vec<(String, String)>)
        ensures
            fields@.len() == 3,
            fields@[0].0@ == "authenticity_token"@,
            fields@[0].1@ == token@,
            fields@[1].0@ == "session[password]"@,
            fields@[1].1@ == self.spec_password(),
            fields@[2].0@ == "commit"@,
            fields@[2].1@ == "Login"@,
            fields@[0].0@ != fields@[1].0@,
            fields@[0].0@ != fields@[2].0@,
            fields@[1].0@ != fields@[2].0@,
    {
        proof {
            reveal_strlit("authenticity_token");
            reveal_strlit("session[password]");
            reveal_strlit("commit");
            assert("authenticity_token"@.len() == 18);
            assert("session[password]"@.len() == 17);
            assert("commit"@.len() == 6);
        }
        let mut fields: Vec<(String, String)> = Vec::new();
        fields.push(("authenticity_token".to_owned(), token.to_owned()));
        fields.push(("session[password]".to_owned(), self.password.clone()));
        fields.push(("commit".to_owned(), "Login".to_owned()));
        fields
    }

    /// Reads the answer to the login form: an accepted login leaves its token
    /// with the client, a rejected one leaves the client as it was.
    pub fn finish_login(&mut self, token: String, accepted: bool) -> (r: Result<(), AuthFailure>)
        ensures
            final(self).spec_base_address() == old(self).spec_base_address(),
            final(self).spec_password() == old(self).spec_password(),
            final(self).spec_output_directory() == old(self).spec_output_directory(),
            accepted ==> r is Ok,
            accepted ==> final(self).spec_auth_token() == Some(token@),
            !accepted ==> r == Err::<(), AuthFailure>(AuthFailure::Rejected),
            !accepted ==> final(self).spec_auth_token() == old(self).spec_auth_token(),
    {
        if accepted {
            self.auth_token = Some(token);
            Ok(())
        } else {
            Err(AuthFailure::Rejected)
        }
    }
}

/// The status is one of success: 200 up to 299.
pub open spec fn is_success(status: u16) -> bool {
    200 <= status < 300
}

/// What the status of the answer to a download request means: a status of
/// success lets the body be saved, 403 tells that the session has expired, and
/// any other status is a failure of the transfer.
pub open spec fn status_outcome(status: u16) -> Result<(), Failure> {
    if is_success(status) {
        Ok(())
    } else if status == FORBIDDEN {
        Err(Failure::AuthExpired)
    } else {
        Err(Failure::TransportError)
    }
}

/// Reads the status of the answer to a download request. Only on `Ok` is the
/// body the item and may be written.
pub fn check_download_status(status: u16) -> (r: Result<(), Failure>)
    ensures
        r == status_outcome(status),
        r is Ok <==> 200 <= status < 300,
        r == Err::<(), Failure>(Failure::AuthExpired) <==> status == 403,
{
    if 200 <= status && status < 300 {
        Ok(())
    } else if status == FORBIDDEN {
        Err(Failure::AuthExpired)
    } else {
        Err(Failure::TransportError)
    }
}

} // verus!
