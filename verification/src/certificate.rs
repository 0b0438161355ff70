//! The agent's certificate: whether one may be used, and how it replaces another.

use crate::digest;
use crate::error::Failure;
use crate::text;
use vstd::prelude::*;
use x509_parser::certificate::X509Certificate;
use x509_parser::extensions::ParsedExtension;
use x509_parser::prelude::FromDer;

verus! {

/// By how much clocks may differ, in seconds, where nothing is configured.
pub const DEFAULT_CERTIFICATE_CLOCK_SKEW_SECONDS: i64 = 300;

/// The bytes of the first block of a PEM text, if it has one.
pub uninterp spec fn pem_block(text: Seq<char>) -> Option<Seq<u8>>;

/// `x509_parser::pem::parse_x509_pem`: the contents of the first block. Which texts have one, and
/// what it holds, is named here and not spelled out.
#[verifier::external_body]
fn pem_contents(pem: &str) -> (r: Option<Vec<u8>>)
    ensures
        digest::bytes_opt(r) == pem_block(pem@),
{
    x509_parser::pem::parse_x509_pem(pem.as_bytes()).ok().map(|found| found.1.contents)
}

/// What a certificate says.
pub struct CertificateFacts {
    /// When it begins to be valid, in seconds since 1970.
    pub not_before: i64,
    /// When it ceases to be valid, in seconds since 1970.
    pub not_after: i64,
    /// The common names of its subject, in order; none for one that is no text.
    pub common_names: Vec<Option<String>>,
    /// For each of its extensions, in order, whether it permits the authentication of a server and
    /// that of a client; none for one that says nothing of uses.
    pub uses: Vec<Option<(bool, bool)>>,
}

/// Optional texts by their contents.
pub open spec fn texts_view(list: Seq<Option<String>>) -> Seq<Option<Seq<char>>> {
    list.map_values(|o: Option<String>| text::opt_view(o))
}

/// What a certificate says, by its contents: from when and until when it is valid, the common
/// names of its subject, and what its extensions say of uses.
pub open spec fn facts_view(facts: Option<CertificateFacts>) -> Option<
    (int, int, Seq<Option<Seq<char>>>, Seq<Option<(bool, bool)>>),
> {
    match facts {
        Some(f) => Some(
            (
                f.not_before as int,
                f.not_after as int,
                texts_view(f.common_names@),
                f.uses@,
            ),
        ),
        None => None,
    }
}

/// What the certificate with the given bytes says, if they are one.
pub uninterp spec fn certificate_of(der: Seq<u8>) -> Option<
    (int, int, Seq<Option<Seq<char>>>, Seq<Option<(bool, bool)>>),
>;

/// `X509Certificate::from_der`, with what the certificate says. Which bytes are a certificate, and
/// what it says, is named here and not spelled out.
#[verifier::external_body]
pub(crate) fn read_certificate(der: &[u8]) -> (r: Option<CertificateFacts>)
    ensures
        facts_view(r) == certificate_of(der@),
{
    let (_, cert) = X509Certificate::from_der(der).ok()?;
    let names = cert.subject().iter_common_name().map(|n| n.as_str().ok().map(|s| s.to_owned()));
    let uses = cert.extensions().iter().map(|e| match e.parsed_extension() {
        ParsedExtension::ExtendedKeyUsage(u) => Some((u.server_auth, u.client_auth)),
        _ => None,
    });
    Some(CertificateFacts {
        not_before: cert.validity().not_before.timestamp(),
        not_after: cert.validity().not_after.timestamp(),
        common_names: names.collect(),
        uses: uses.collect(),
    })
}

/// The certificate with the given bytes carries a signature by the key of another.
pub uninterp spec fn signed_by(der: Seq<u8>, ca: Seq<u8>) -> bool;

/// `X509Certificate::verify_signature` with the public key of another certificate: whether it
/// succeeds. When it does is named here and not spelled out.
#[verifier::external_body]
fn verify_signed(der: &[u8], ca: &[u8]) -> (r: bool)
    ensures
        r == signed_by(der@, ca@),
{
    match (X509Certificate::from_der(der), X509Certificate::from_der(ca)) {
        (Ok((_, cert)), Ok((_, ca))) => cert.verify_signature(Some(ca.public_key())).is_ok(),
        _ => false,
    }
}

/// By how much clocks may differ: what is configured, up to an hour, or the usual.
pub open spec fn skew_of(setting: Option<Seq<char>>) -> int {
    match setting {
        Some(s) => match text::signed_parsed(s) {
            Some(n) => if 0 <= n <= 3600 {
                n
            } else {
                300
            },
            None => 300,
        },
        None => 300,
    }
}

/// By how much clocks may differ: what is configured, up to an hour, or the usual.
pub fn clock_skew(setting: Option<&str>) -> (r: i64)
    ensures
        r == skew_of(crate::protection::str_view(setting)),
{
    match setting {
        Some(s) => match text::parse_signed(s) {
            Some(n) => if 0 <= n && n <= 3600 {
                n
            } else {
                DEFAULT_CERTIFICATE_CLOCK_SKEW_SECONDS
            },
            None => DEFAULT_CERTIFICATE_CLOCK_SKEW_SECONDS,
        },
        None => DEFAULT_CERTIFICATE_CLOCK_SKEW_SECONDS,
    }
}

/// The name that a certificate is for: the first common name of its subject, if it is a text.
pub open spec fn name_of(common_names: Seq<Option<Seq<char>>>) -> Seq<char> {
    if common_names.len() > 0 && common_names[0] is Some {
        common_names[0]->0
    } else {
        ""@
    }
}

/// What the last extension that speaks of uses says of servers and of clients.
pub open spec fn permitted(uses: Seq<Option<(bool, bool)>>) -> (bool, bool)
    decreases uses.len(),
{
    if uses.len() == 0 {
        (false, false)
    } else {
        match uses.last() {
            Some(pair) => pair,
            None => permitted(uses.drop_last()),
        }
    }
}

/// The certificate permits the authentication of a server.
pub open spec fn permits_servers(uses: Seq<Option<(bool, bool)>>) -> bool {
    permitted(uses).0
}

/// The certificate permits the authentication of a client.
pub open spec fn permits_clients(uses: Seq<Option<(bool, bool)>>) -> bool {
    permitted(uses).1
}

/// Why what a certificate says does not do; none where it does.
pub open spec fn facts_refusal(
    facts: (int, int, Seq<Option<Seq<char>>>, Seq<Option<(bool, bool)>>),
    node_id: Seq<char>,
    now: int,
    skew: int,
) -> Option<Seq<char>> {
    if now + skew < facts.0 || now - skew > facts.1 {
        Some("certificate is not currently valid"@)
    } else if node_id.len() > 0 && name_of(facts.2) != node_id {
        Some("agent certificate common name must equal node id '"@ + node_id + "'"@)
    } else if !permits_servers(facts.3) {
        Some("agent certificate does not permit TLS server authentication"@)
    } else {
        None
    }
}

fn find_permitted(uses: &Vec<Option<(bool, bool)>>) -> (r: (bool, bool))
    ensures
        r == permitted(uses@),
{
    let mut i: usize = uses.len();
    assert(uses@.take(i as int) =~= uses@);
    while i > 0
        invariant
            0 <= i <= uses@.len(),
            permitted(uses@) == permitted(uses@.take(i as int)),
        decreases i,
    {
        assert(uses@.take(i as int).drop_last() =~= uses@.take(i - 1));
        assert(uses@.take(i as int).last() == uses@[i - 1]);
        match uses[i - 1] {
            Some(pair) => {
                return pair;
            },
            None => {},
        }
        i -= 1;
    }
    (false, false)
}

fn subject_name(names: &Vec<Option<String>>) -> (r: String)
    ensures
        r@ == name_of(texts_view(names@)),
{
    if names.len() > 0 {
        assert(texts_view(names@)[0] == text::opt_view(names@[0]));
        match &names[0] {
            Some(name) => {
                return name.as_str().to_owned();
            },
            None => {},
        }
    }
    "".to_owned()
}

/// Refuses a certificate that is not valid now, that is for another node, or that does not permit
/// the authentication of a server.
pub fn check_facts(facts: &CertificateFacts, node_id: &str, now: i64, skew: i64) -> (r: Result<
    (),
    Failure,
>)
    ensures
        ({
            let refusal = facts_refusal(
                facts_view(Some(*facts))->0,
                node_id@,
                now as int,
                skew as int,
            );
            &&& r is Ok <==> refusal is None
            &&& r is Err ==> Some(r->Err_0.message@) == refusal
        }),
{
    if now as i128 + (skew as i128) < facts.not_before as i128 || now as i128 - skew as i128
        > facts.not_after as i128 {
        return Err(Failure::new("certificate is not currently valid"));
    }
    let name = subject_name(&facts.common_names);
    let wrong = !text::is_empty(node_id) && !text::same(name.as_str(), node_id);
    if wrong {
        return Err(
            Failure {
                message: text::concat3(
                    "agent certificate common name must equal node id '",
                    node_id,
                    "'",
                ),
            },
        );
    }
    if !find_permitted(&facts.uses).0 {
        return Err(Failure::new("agent certificate does not permit TLS server authentication"));
    }
    Ok(())
}

/// Why a certificate is refused; none where it is not.
pub open spec fn certificate_refusal(
    pem: Seq<char>,
    ca_pem: Seq<char>,
    node_id: Seq<char>,
    now: int,
    skew: int,
) -> Option<Seq<char>> {
    if pem_block(pem) is None {
        Some("invalid certificate PEM"@)
    } else if certificate_of(pem_block(pem)->0) is None {
        Some("invalid X.509 certificate"@)
    } else if pem_block(ca_pem) is None {
        Some("invalid CA certificate PEM"@)
    } else if certificate_of(pem_block(ca_pem)->0) is None {
        Some("invalid CA certificate"@)
    } else if !signed_by(pem_block(pem)->0, pem_block(ca_pem)->0) {
        Some("certificate is not signed by the configured Agapornis CA"@)
    } else {
        facts_refusal(certificate_of(pem_block(pem)->0)->0, node_id, now, skew)
    }
}

/// The fingerprint of a certificate that may be used: it is signed by the given authority, valid
/// now, for this node, and permits the authentication of a server.
pub fn validate_certificate(pem: &str, ca_pem: &str, node_id: &str, now: i64, skew: i64) -> (r:
    Result<String, Failure>)
    ensures
        ({
            let refusal = certificate_refusal(pem@, ca_pem@, node_id@, now as int, skew as int);
            &&& r is Ok <==> refusal is None
            &&& r is Ok ==> r->Ok_0@ == digest::hex(digest::sha256(pem_block(pem@)->0))
            &&& r is Err ==> Some(r->Err_0.message@) == refusal
        }),
{
    let der = match pem_contents(pem) {
        Some(der) => der,
        None => {
            return Err(Failure::new("invalid certificate PEM"));
        },
    };
    let facts = match read_certificate(der.as_slice()) {
        Some(facts) => facts,
        None => {
            return Err(Failure::new("invalid X.509 certificate"));
        },
    };
    let ca = match pem_contents(ca_pem) {
        Some(ca) => ca,
        None => {
            return Err(Failure::new("invalid CA certificate PEM"));
        },
    };
    if read_certificate(ca.as_slice()).is_none() {
        return Err(Failure::new("invalid CA certificate"));
    }
    if !verify_signed(der.as_slice(), ca.as_slice()) {
        return Err(Failure::new("certificate is not signed by the configured Agapornis CA"));
    }
    match check_facts(&facts, node_id, now, skew) {
        Ok(()) => Ok(digest::sha256_hex(der.as_slice())),
        Err(e) => Err(e),
    }
}

/// Why a client is turned away, by what its certificate says; none where it is not.
pub open spec fn client_refusal(
    facts: (int, int, Seq<Option<Seq<char>>>, Seq<Option<(bool, bool)>>),
) -> Option<Seq<char>> {
    if name_of(facts.2) != "agapornis-master"@ {
        Some("client certificate is not authorized"@)
    } else if !permits_clients(facts.3) {
        Some("client certificate is missing clientAuth usage"@)
    } else {
        None
    }
}

/// Turns away a client that is not the master, or whose certificate does not permit the
/// authentication of a client.
pub fn check_client(facts: &CertificateFacts) -> (r: Result<(), Failure>)
    ensures
        ({
            let refusal = client_refusal(facts_view(Some(*facts))->0);
            &&& r is Ok <==> refusal is None
            &&& r is Err ==> Some(r->Err_0.message@) == refusal
        }),
{
    let name = subject_name(&facts.common_names);
    if !text::same(name.as_str(), "agapornis-master") {
        return Err(Failure::new("client certificate is not authorized"));
    }
    if !find_permitted(&facts.uses).1 {
        return Err(Failure::new("client certificate is missing clientAuth usage"));
    }
    Ok(())
}

/// A fingerprint without what it may be written with.
pub open spec fn plain_fingerprint(s: Seq<char>) -> Seq<char> {
    text::lowered(text::trimmed(text::replaced(s, ":"@, ""@)))
}

fn clean_fingerprint(s: &str) -> (r: String)
    ensures
        r@ == plain_fingerprint(s@),
{
    proof {
        reveal_strlit(":");
    }
    let bare = text::replace(s, ":", "");
    let bare = text::trim(bare.as_str());
    text::to_lower(bare.as_str())
}

/// Whether two fingerprints are the same, however they are written.
pub fn constant_fingerprint(a: &str, b: &str) -> (r: bool)
    ensures
        r == (plain_fingerprint(a@) == plain_fingerprint(b@)),
{
    let x = clean_fingerprint(a);
    let y = clean_fingerprint(b);
    let p = text::bytes_of(x.as_str());
    let q = text::bytes_of(y.as_str());
    proof {
        vstd::utf8::encode_utf8_decode_utf8(x@);
        vstd::utf8::encode_utf8_decode_utf8(y@);
    }
    p.len() == q.len() && digest::equal_in_constant_time(p.as_slice(), q.as_slice())
}

/// Refuses a certificate that is not the one that was announced.
pub fn check_fingerprint(fingerprint: &str, expected: &str) -> (r: Result<(), Failure>)
    ensures
        r is Ok <==> plain_fingerprint(fingerprint@) == plain_fingerprint(expected@),
        r is Err ==> r->Err_0.message@
            == "certificate fingerprint did not match expected fingerprint"@,
{
    if constant_fingerprint(fingerprint, expected) {
        Ok(())
    } else {
        Err(Failure::new("certificate fingerprint did not match expected fingerprint"))
    }
}

/// Where a file goes when another takes its place.
pub fn previous(path: &str) -> (r: String)
    ensures
        r@ == path@ + ".previous"@,
{
    text::concat2(path, ".previous")
}

/// Where a new file is written before it takes the place of another.
pub fn replacement(path: &str) -> (r: String)
    ensures
        r@ == path@ + ".new"@,
{
    text::concat2(path, ".new")
}

/// Refuses to go back to a bundle of which a file is missing.
pub fn check_previous(certificate: bool, key: bool, ca: bool) -> (r: Result<(), Failure>)
    ensures
        r is Ok <==> certificate && key && ca,
        r is Err ==> r->Err_0.message@ == "previous certificate bundle is not available"@,
{
    if certificate && key && ca {
        Ok(())
    } else {
        Err(Failure::new("previous certificate bundle is not available"))
    }
}

// ---------------------------------------------------------------------------------------------
// Laws.

/// A certificate that is accepted is valid at a time that is no further from now than clocks may
/// differ, is for this node, and permits the authentication of a server.
pub proof fn law_accepted_certificate_fits(
    pem: Seq<char>,
    ca_pem: Seq<char>,
    node_id: Seq<char>,
    now: int,
    skew: int,
)
    requires
        skew >= 0,
        certificate_refusal(pem, ca_pem, node_id, now, skew) is None,
    ensures
        ({
            let facts = certificate_of(pem_block(pem)->0)->0;
            &&& signed_by(pem_block(pem)->0, pem_block(ca_pem)->0)
            &&& facts.0 - skew <= now <= facts.1 + skew
            &&& node_id.len() > 0 ==> name_of(facts.2) == node_id
            &&& permits_servers(facts.3)
        }),
{
}

/// A clock that is within the tolerated difference does not turn a valid certificate away, and more
/// tolerance never turns away what less accepts.
pub proof fn law_tolerance_only_admits(
    facts: (int, int, Seq<Option<Seq<char>>>, Seq<Option<(bool, bool)>>),
    node_id: Seq<char>,
    now: int,
    less: int,
    more: int,
)
    requires
        less <= more,
        facts_refusal(facts, node_id, now, less) is None,
    ensures
        facts_refusal(facts, node_id, now, more) is None,
{
}

/// A certificate is accepted exactly where it is signed by the authority, valid now as far as clocks
/// may differ, for this node where the node has a name, and permits the authentication of a server.
pub proof fn law_proper_certificates_are_accepted(
    pem: Seq<char>,
    ca_pem: Seq<char>,
    node_id: Seq<char>,
    now: int,
    skew: int,
)
    requires
        pem_block(pem) is Some,
        pem_block(ca_pem) is Some,
        certificate_of(pem_block(pem)->0) is Some,
        certificate_of(pem_block(ca_pem)->0) is Some,
    ensures
        ({
            let facts = certificate_of(pem_block(pem)->0)->0;
            certificate_refusal(pem, ca_pem, node_id, now, skew) is None <==> signed_by(
                pem_block(pem)->0,
                pem_block(ca_pem)->0,
            ) && facts.0 <= now + skew && now - skew <= facts.1 && (node_id.len() > 0 ==> name_of(
                facts.2,
            ) == node_id) && permits_servers(facts.3)
        }),
{
}

/// The name of a certificate is its first common name; without one it has none. Uses are those of
/// the last extension that speaks of them; without one nothing is permitted.
pub proof fn law_the_first_name_and_the_last_uses_count(
    names: Seq<Option<Seq<char>>>,
    name: Seq<char>,
    uses: Seq<Option<(bool, bool)>>,
    servers: bool,
    clients: bool,
)
    ensures
        name_of(seq![Some(name)] + names) == name,
        name_of(Seq::empty()).len() == 0,
        permits_servers(uses.push(Some((servers, clients)))) == servers,
        permits_clients(uses.push(Some((servers, clients)))) == clients,
        permits_servers(uses.push(None)) == permits_servers(uses),
        permits_clients(uses.push(None)) == permits_clients(uses),
        !permits_servers(Seq::empty()),
        !permits_clients(Seq::empty()),
{
    reveal_strlit("");
    assert((seq![Some(name)] + names)[0] == Some(name));
    assert(uses.push(None).drop_last() =~= uses);
}

/// The master is let in: a client whose certificate has exactly its name and permits the
/// authentication of a client is not turned away, whatever else its certificate says.
pub proof fn law_the_master_is_let_in(
    facts: (int, int, Seq<Option<Seq<char>>>, Seq<Option<(bool, bool)>>),
)
    ensures
        client_refusal(facts) is None <==> name_of(facts.2) == "agapornis-master"@
            && permits_clients(facts.3),
{
}

/// Clocks may differ by as much as is configured, up to an hour, and by five minutes where nothing
/// sensible is.
pub proof fn law_clocks_may_differ_by_an_hour_at_most(n: int, s: Seq<char>)
    ensures
        0 <= n <= 3600 ==> skew_of(Some(text::signed_decimal(n))) == n,
        n < 0 || n > 3600 ==> skew_of(Some(text::signed_decimal(n))) == 300,
        text::signed_parsed(s) is None ==> skew_of(Some(s)) == 300,
        skew_of(None) == 300,
{
    text::law_signed_decimal_reads_back(n, s);
}

/// Colons in a fingerprint, capital letters and white space around it do not matter.
pub proof fn law_fingerprints_are_compared_plainly(a: Seq<char>, b: Seq<char>)
    requires
        !a.contains(':'),
        text::trimmed(a) == a,
    ensures
        plain_fingerprint(a) == text::lowered(a),
        plain_fingerprint(text::lowered(a)) == plain_fingerprint(a),
        !b.contains(':') && text::trimmed(a + b) == a + b ==> plain_fingerprint(a + ":"@ + b)
            == plain_fingerprint(a + b),
{
    reveal_strlit(":");
    reveal_strlit("");
    let none = ""@;
    assert(none =~= Seq::<char>::empty());
    lemma_no_colon(a, none);
    let small = text::lowered(a);
    assert forall|k: int| 0 <= k < small.len() implies small[k] != ':' by {
        assert(a.contains(a[k]));
        text::law_only_letters_become_small(a, k);
    }
    lemma_no_colon(small, none);
    if a.len() > 0 {
        text::law_only_letters_become_small(a, 0);
        text::law_only_letters_become_small(a, a.len() - 1);
        text::lemma_trimmed_ends(a);
        assert(!text::is_space(small[0]) && !text::is_space(small.last()));
        assert(text::trimmed(small) == small);
    } else {
        assert(small =~= a);
    }
    if !b.contains(':') && text::trimmed(a + b) == a + b {
        lemma_no_colon(b, none);
        let s = a + ":"@ + b;
        assert forall|i: int| 0 <= i < a.len() implies !text::occurs_at(s, ":"@, i) by {
            if text::occurs_at(s, ":"@, i) {
                assert(s.subrange(i, i + 1)[0] == s[i]);
                assert(a.contains(a[i]));
            }
        }
        text::law_occurrences_are_replaced(a, ":"@, none, b);
        assert(a + none + b =~= a + b);
        let both = a + b;
        assert forall|k: int| 0 <= k < both.len() implies both[k] != ':' by {
            if k < a.len() {
                assert(a.contains(a[k]));
            } else {
                assert(b.contains(b[k - a.len()]));
            }
        }
        lemma_no_colon(both, none);
    }
}

proof fn lemma_no_colon(s: Seq<char>, none: Seq<char>)
    requires
        !s.contains(':'),
    ensures
        text::replaced(s, ":"@, none) == s,
{
    reveal_strlit(":");
    assert(!text::contains(s, ":"@)) by {
        if text::contains(s, ":"@) {
            let i = choose|i: int| text::occurs_at(s, ":"@, i);
            assert(s.subrange(i, i + 1)[0] == s[i]);
            assert(s.contains(s[i]));
        }
    }
    let empty = Seq::<char>::empty();
    text::law_occurrences_are_replaced(empty, ":"@, none, s);
}

} // verus!
