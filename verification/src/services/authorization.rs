//! Who may ask: the master, by the certificate that it presents.

use crate::certificate::{
    certificate_of, check_client, client_refusal, facts_view, read_certificate, CertificateFacts,
};
use crate::services::responses::{refused, Code, Status};
use vstd::prelude::*;

verus! {

/// Lets the master in, by what its certificate says; none where its certificate is none.
pub fn authorize(facts: Option<CertificateFacts>) -> (r: Result<(), Status>)
    ensures
        match facts_view(facts) {
            None => refused(r, Code::Unauthenticated, "invalid client certificate"@),
            Some(f) => match client_refusal(f) {
                Some(m) => refused(r, Code::PermissionDenied, m),
                None => r is Ok,
            },
        },
{
    match facts {
        Some(facts) => match check_client(&facts) {
            Ok(()) => Ok(()),
            Err(e) => Err(Status { code: Code::PermissionDenied, message: e.message }),
        },
        None => Err(Status::new(Code::Unauthenticated, "invalid client certificate")),
    }
}

/// Lets the master in, by the first certificate that the client presented, if it presented one.
pub fn authorize_master(certificate: Option<&[u8]>) -> (r: Result<(), Status>)
    ensures
        match certificate {
            None => refused(r, Code::Unauthenticated, "mTLS client certificate is required"@),
            Some(der) => match certificate_of(der@) {
                None => refused(r, Code::Unauthenticated, "invalid client certificate"@),
                Some(f) => match client_refusal(f) {
                    Some(m) => refused(r, Code::PermissionDenied, m),
                    None => r is Ok,
                },
            },
        },
{
    match certificate {
        Some(der) => authorize(read_certificate(der)),
        None => Err(Status::new(Code::Unauthenticated, "mTLS client certificate is required")),
    }
}

// ---------------------------------------------------------------------------------------------
// Laws.

/// Nobody but the master is let in: whoever is, presented a certificate with exactly its name that
/// permits the authentication of a client.
pub proof fn law_only_the_master_is_let_in(
    facts: (int, int, Seq<Option<Seq<char>>>, Seq<Option<(bool, bool)>>),
)
    requires
        client_refusal(facts) is None,
    ensures
        facts.2.len() > 0,
        facts.2[0] == Some("agapornis-master"@),
        crate::certificate::permits_clients(facts.3),
{
    reveal_strlit("agapornis-master");
    reveal_strlit("");
    assert("agapornis-master"@.len() != ""@.len());
}

} // verus!
