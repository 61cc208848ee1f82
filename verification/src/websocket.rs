//! WebSocket-layer rules: HTTP Basic credentials and the server-side
//! authorization check of the upgrade request.
//!
//! The upgrade handshake itself runs outside the library; it hands the
//! request's `Authorization` header value in as plain bytes and carries
//! the decision back to the peer.

use base64::Engine;

use vstd::prelude::*;

use vstd::utf8::encode_utf8;

verus! {

/// What base64::encode returns for the given bytes.
pub uninterp spec fn base64_of(bytes: Seq<u8>) -> Seq<u8>;

/// Relies on base64's `engine::general_purpose::STANDARD.encode`: the
/// standard-alphabet base64 encoding of the input with padding, four
/// output bytes for every started group of three input bytes.
#[verifier::external_body]
fn b64_encode(input: &Vec<u8>) -> (r: Vec<u8>)
    ensures
        r@ == base64_of(input@),
        r@.len() == 4 * ((input@.len() + 2) / 3),
{
    base64::engine::general_purpose::STANDARD.encode(input).into_bytes()
}

/// The `user:pass` byte string that HTTP Basic credentials are built
/// from, UTF-8 encoded around the colon.
pub open spec fn credentials_bytes(username: Seq<char>, password: Seq<char>) -> Seq<u8> {
    encode_utf8(username) + seq![58u8] + encode_utf8(password)
}

/// The exact value of the `Authorization` header for the given
/// credentials: the bytes of `Basic `, then base64 of `user:pass`.
pub open spec fn authorization_value(username: Seq<char>, password: Seq<char>) -> Seq<u8> {
    seq![66u8, 97u8, 115u8, 105u8, 99u8, 32u8] + base64_of(
        credentials_bytes(username, password),
    )
}

/// HTTP Basic credentials for the WebSocket upgrade.
pub struct Authentication {
    /// The user name, sent before the colon.
    pub username: String,
    /// The password, sent after the colon.
    pub password: String,
}

impl Authentication {
    /// Builds the `Authorization` header value these credentials put on
    /// the upgrade request.
    pub fn autherization(&self) -> (r: Vec<u8>)
        ensures
            r@ == authorization_value(self.username@, self.password@),
    {
        let mut creds: Vec<u8> = self.username.as_str().as_bytes_vec();
        creds.push(58u8);  // the colon between user and password
        let mut p: Vec<u8> = self.password.as_str().as_bytes_vec();
        creds.append(&mut p);
        proof {
            assert(creds@ =~= credentials_bytes(self.username@, self.password@));
        }
        let encoded = b64_encode(&creds);
        let mut r: Vec<u8> = Vec::new();
        r.push(66u8);  // 'B'
        r.push(97u8);  // 'a'
        r.push(115u8);  // 's'
        r.push(105u8);  // 'i'
        r.push(99u8);  // 'c'
        r.push(32u8);  // ' '
        let mut e = encoded;
        r.append(&mut e);
        proof {
            assert(r@ =~= authorization_value(self.username@, self.password@));
        }
        r
    }
}

/// The rejection a server answers an unauthorized upgrade with: exactly
/// HTTP 401 and a Basic challenge.
pub struct HttpRejection {
    /// The HTTP status code.
    pub status: u16,
    /// The value of the `WWW-Authenticate` response header.
    pub www_authenticate: String,
}

/// Compares two byte strings.
pub fn bytes_equal(a: &Vec<u8>, b: &Vec<u8>) -> (r: bool)
    ensures
        r <==> a@ == b@,
{
    if a.len() != b.len() {
        proof {
            assert(a@.len() != b@.len());
        }
        return false;
    }
    let mut i: usize = 0;
    while i < a.len()
        invariant
            i <= a@.len(),
            a@.len() == b@.len(),
            forall|k: int| 0 <= k < i ==> a@[k] == b@[k],
        decreases a@.len() - i,
    {
        if a[i] != b[i] {
            return false;
        }
        i = i + 1;
    }
    proof {
        assert(a@ =~= b@);
    }
    true
}

/// The server-side authorization decision on an upgrade request: the
/// request passes exactly when it carries an `Authorization` header equal
/// to the expected `Basic` value; everything else — a wrong value or a
/// missing header — is answered with HTTP 401 and the Basic challenge,
/// and no WebSocket is created.
pub fn authorize(provided: Option<&Vec<u8>>, expected: &Vec<u8>) -> (r: Result<(), HttpRejection>)
    ensures
        r is Ok <==> (provided matches Some(p) && p@ == expected@),
        r matches Err(rej) ==> rej.status == 401 && rej.www_authenticate@ == (
        "Basic realm=\"access the service\"")@,
{
    match provided {
        Some(p) => {
            if bytes_equal(p, expected) {
                Ok(())
            } else {
                Err(
                    HttpRejection {
                        status: 401,
                        www_authenticate: ("Basic realm=\"access the service\"").to_owned(),
                    },
                )
            }
        },
        None => {
            Err(
                HttpRejection {
                    status: 401,
                    www_authenticate: ("Basic realm=\"access the service\"").to_owned(),
                },
            )
        },
    }
}

/// A WebSocket server connector: wraps an inner connector and holds the
/// header value that an upgrade request must carry.
pub struct ListenConnector<T> {
    /// The wrapped connector producing the carrier the upgrade runs on.
    pub connector: T,
    /// The exact `Authorization` value an upgrade must present.
    pub autherization: Vec<u8>,
}

impl<T> ListenConnector<T> {
    /// Builds the server connector for the given credentials.
    pub fn new(connector: T, auth: Authentication) -> (r: Self)
        ensures
            r.connector == connector,
            r.autherization@ == authorization_value(auth.username@, auth.password@),
    {
        let autherization = auth.autherization();
        Self { connector, autherization }
    }
}

/// A WebSocket client connector: wraps an inner connector and holds the
/// upgrade target and the header value to present.
pub struct ClientConnector<T> {
    /// The wrapped connector producing the carrier the upgrade runs on.
    pub connector: T,
    /// The request target of the upgrade.
    pub uri: String,
    /// The `Authorization` value the upgrade request carries.
    pub autherizatoin: Vec<u8>,
}

impl<T> ClientConnector<T> {
    /// Builds the client connector for the given target and credentials.
    pub fn new(connector: T, uri: String, auth: Authentication) -> (r: Self)
        ensures
            r.connector == connector,
            r.uri@ == uri@,
            r.autherizatoin@ == authorization_value(auth.username@, auth.password@),
    {
        let autherizatoin = auth.autherization();
        Self { connector, uri, autherizatoin }
    }
}

} // verus!
