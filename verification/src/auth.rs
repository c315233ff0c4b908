//! The login handshake.
//!
//! A connection must present one `Auth` record carrying a password.  The
//! hub fetches or creates the username's salt, hashes the password under
//! it, and checks the digest against the credential store: a never-seen
//! username is registered with this digest as its permanent credential
//! and passes; a known username passes only if the digest matches.  On
//! success the hub issues a fresh session token and answers with an
//! `Auth` record carrying it; on failure the connection is dropped with
//! no response.

use vstd::prelude::*;

use crate::credentials::salt_wf;
use crate::credentials::CredentialStore;
use crate::crypto::is_alnum_char;
use crate::crypto::salted_digest;
use crate::crypto::salted_hash;
use crate::messages::AuthMessage;
use crate::registry::TOKEN_LEN;
use crate::state::ServerState;

verus! {

/// How a login attempt ends: a response to write back, or a silent
/// drop of the connection.
pub enum AuthOutcome {
    Granted(AuthMessage),
    Rejected,
}

/// Runs the credential check for one `Auth` request and, on success,
/// issues a session token.  Recording the identity hash and the live
/// connection follow in `complete_login`, once the response has been
/// written.
pub fn authenticate(state: &mut ServerState, request: &AuthMessage) -> (outcome: AuthOutcome)
    requires
        old(state).wf(),
    ensures
        final(state).wf(),
        final(state).channels@ == old(state).channels@,
        final(state).users == old(state).users,
        final(state).history == old(state).history,
        final(state).registry.connections@ == old(state).registry.connections@,
        request.password is None ==> {
            &&& outcome is Rejected
            &&& final(state).creds == old(state).creds
            &&& final(state).registry == old(state).registry
        },
        request.password matches Some(pw) ==> ({
            let u = request.username@;
            let salt = final(state).creds.salts@[u];
            let digest = salted_digest(pw@, salt@);
            &&& final(state).creds.salts@.contains_key(u)
            &&& salt_wf(salt@)
            &&& (old(state).creds.salts@.contains_key(u) ==> final(state).creds.salts@ == old(
                state,
            ).creds.salts@ && salt == old(state).creds.salts@[u])
            &&& (!old(state).creds.salts@.contains_key(u) ==> final(state).creds.salts@ == old(
                state,
            ).creds.salts@.insert(u, salt))
            &&& (old(state).creds.hashes@.contains_key(u) ==> final(state).creds.hashes@ == old(
                state,
            ).creds.hashes@)
            &&& (!old(state).creds.hashes@.contains_key(u) ==> {
                &&& final(state).creds.hashes@.contains_key(u)
                &&& final(state).creds.hashes@[u]@ == digest
                &&& final(state).creds.hashes@ == old(state).creds.hashes@.insert(
                    u,
                    final(state).creds.hashes@[u],
                )
            })
            &&& (CredentialStore::check_spec(old(state).creds.hashes@, u, digest) ==> {
                &&& outcome matches AuthOutcome::Granted(response)
                &&& response.username@ == u
                &&& response.password is None
                &&& response.auth_token matches Some(token) && token@.len() == TOKEN_LEN
                    && (forall|i: int|
                        0 <= i < token@.len() ==> is_alnum_char(#[trigger] token@[i]))
                    && final(state).registry.tokens@ == old(state).registry.tokens@.insert(
                        u,
                        token,
                    )
            })
            &&& (!CredentialStore::check_spec(old(state).creds.hashes@, u, digest) ==> {
                &&& outcome is Rejected
                &&& final(state).registry == old(state).registry
            })
        }),
{
    let password = match &request.password {
        Some(p) => p.clone(),
        None => {
            return AuthOutcome::Rejected;
        },
    };
    let salt = state.creds.get_or_create_salt(&request.username);
    let digest = salted_hash(password.as_str(), salt.as_str());
    let granted = state.creds.verify_or_register(&request.username, digest);
    if granted {
        let token = state.registry.issue_token(&request.username);
        AuthOutcome::Granted(
            AuthMessage {
                username: request.username.clone(),
                auth_token: Some(token),
                password: None,
            },
        )
    } else {
        AuthOutcome::Rejected
    }
}

/// Finishes a successful login once the response has been written:
/// records the identity hash (first login only) and registers the live
/// connection.
pub fn complete_login(state: &mut ServerState, username: String)
    requires
        old(state).wf(),
    ensures
        final(state).wf(),
        final(state).channels@ == old(state).channels@,
        final(state).creds == old(state).creds,
        final(state).history == old(state).history,
        final(state).registry.tokens@ == old(state).registry.tokens@,
        ({
            let h = crate::dm::user_hash(username@) as i64;
            if old(state).users@.contains_key(username@) || crate::strmap::has_value(
                old(state).users@,
                h,
            ) {
                final(state).users@ == old(state).users@
            } else {
                final(state).users@ == old(state).users@.insert(username@, h)
            }
        }),
        final(state).registry.connected(username@),
        old(state).registry.connected(username@) ==> final(state).registry.connections@ == old(
            state,
        ).registry.connections@,
        !old(state).registry.connected(username@) ==> final(state).registry.connections@ == old(
            state,
        ).registry.connections@.push(username),
{
    state.record_user(&username);
    state.registry.register(username);
}

/// Law: the first password presented for a never-seen username becomes
/// its permanent credential.  That first attempt always passes, and a
/// later attempt against the recorded credential passes exactly when its
/// salted digest repeats the first one — so a different password whose
/// digest differs is rejected.
pub proof fn lemma_first_password_wins(
    hashes: Map<Seq<char>, String>,
    u: Seq<char>,
    recorded: String,
    pw1: Seq<char>,
    pw2: Seq<char>,
    salt: Seq<char>,
)
    requires
        !hashes.contains_key(u),
        recorded@ == salted_digest(pw1, salt),
    ensures
        CredentialStore::check_spec(hashes, u, salted_digest(pw1, salt)),
        CredentialStore::check_spec(hashes.insert(u, recorded), u, salted_digest(pw2, salt))
            <==> salted_digest(pw2, salt) == salted_digest(pw1, salt),
{
}

} // verus!
