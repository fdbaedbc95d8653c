//! The names that a certificate vouches for.
use vstd::prelude::*;
use x509_parser::extensions::GeneralName;

use crate::error::{agrees, EdgeError, Fault};
use crate::text::{case_does_not_count, eq_fold, lowered, owned, quote, quoted, same_fold, views};

verus! {

/// What the first PEM block of a file holds, or the words that explain why there is none.
pub uninterp spec fn pem_reading(bytes: Seq<u8>) -> Result<Seq<u8>, Seq<char>>;

/// `x509_parser::pem::parse_x509_pem`: the decoded contents of the first PEM block. They,
/// and the error's text, depend on the bytes alone; the grammar is left unsaid.
#[verifier::external_body]
fn read_pem(bytes: &[u8]) -> (r: Result<Vec<u8>, String>)
    ensures
        match (r, pem_reading(bytes@)) {
            (Ok(a), Ok(b)) => a@ == b,
            (Err(a), Err(b)) => a@ == b,
            _ => false,
        },
{
    match x509_parser::pem::parse_x509_pem(bytes) {
        Ok((_, pem)) => Ok(pem.contents),
        Err(err) => Err(err.to_string()),
    }
}

/// The alternative names in a certificate: an entry per name, with its text where it is
/// a DNS name.
pub type AltNames = Result<Result<Option<Vec<Option<String>>>, String>, String>;

/// The same, as values.
pub type AltNamesView = Result<Result<Option<Seq<Option<Seq<char>>>>, Seq<char>>, Seq<char>>;

/// The texts of optional strings.
pub open spec fn opt_views(v: Seq<Option<String>>) -> Seq<Option<Seq<char>>> {
    v.map_values(
        |o: Option<String>|
            match o {
                Some(s) => Some(s@),
                None => None,
            },
    )
}

pub open spec fn names_view(r: AltNames) -> AltNamesView {
    match r {
        Ok(Ok(Some(v))) => Ok(Ok(Some(opt_views(v@)))),
        Ok(Ok(None)) => Ok(Ok(None)),
        Ok(Err(fault)) => Ok(Err(fault@)),
        Err(fault) => Err(fault@),
    }
}

/// What a certificate in DER says of its alternative names: the outer error is that it
/// cannot be read, the inner one that the extension cannot.
pub uninterp spec fn certificate_reading(der: Seq<u8>) -> AltNamesView;

/// `x509_parser::parse_x509_certificate`, and `subject_alternative_name` on what it gives,
/// which borrows from the bytes: the general names of the extension, in order. They, and
/// the texts of the errors, depend on the bytes alone; the grammar is left unsaid.
#[verifier::external_body]
fn read_certificate(der: &[u8]) -> (r: AltNames)
    ensures
        names_view(r) == certificate_reading(der@),
{
    let cert = match x509_parser::parse_x509_certificate(der) {
        Ok((_, cert)) => cert,
        Err(err) => return Err(err.to_string()),
    };
    let san = match cert.subject_alternative_name() {
        Ok(Some(san)) => san,
        Ok(None) => return Ok(Ok(None)),
        Err(err) => return Ok(Err(err.to_string())),
    };
    Ok(Ok(Some(san.value.general_names.iter().map(|name| match name {
        GeneralName::DNSName(name) => Some(name.to_string()),
        _ => None,
    }).collect())))
}

/// The DNS names among the alternative names.
pub open spec fn dns_names(names: Seq<Option<Seq<char>>>) -> Seq<Seq<char>>
    decreases names.len(),
{
    if names.len() == 0 {
        Seq::empty()
    } else {
        match names.last() {
            Some(name) => dns_names(names.drop_last()).push(name),
            None => dns_names(names.drop_last()),
        }
    }
}

/// Quoted texts with commas between them.
pub open spec fn quoted_row(names: Seq<Seq<char>>) -> Seq<char>
    decreases names.len(),
{
    if names.len() == 0 {
        Seq::empty()
    } else if names.len() == 1 {
        quoted(names[0])
    } else {
        quoted_row(names.drop_last()) + ", "@ + quoted(names.last())
    }
}

/// Whether one of `names` is `name`, in whatever case.
pub open spec fn vouches(names: Seq<Seq<char>>, name: Seq<char>) -> bool {
    exists|i: int| 0 <= i < names.len() && same_fold(#[trigger] names[i], name)
}

/// What is wrong with the alternative names of the certificate at `path`.
pub open spec fn names_verdict(
    path: Seq<char>,
    server_name: Seq<char>,
    names: AltNamesView,
) -> Result<(), Fault> {
    match names {
        Err(fault) => Err(
            Fault::TlsCertificateName {
                path,
                server_name,
                message: "failed to parse certificate: "@ + fault,
            },
        ),
        Ok(Err(fault)) => Err(
            Fault::TlsCertificateName {
                path,
                server_name,
                message: "invalid subjectAltName extension: "@ + fault,
            },
        ),
        Ok(Ok(None)) => Err(
            Fault::TlsCertificateName {
                path,
                server_name,
                message: "missing subjectAltName extension"@,
            },
        ),
        Ok(Ok(Some(names))) => if vouches(dns_names(names), server_name) {
            Ok(())
        } else {
            Err(
                Fault::TlsCertificateName {
                    path,
                    server_name,
                    message: "subjectAltName DNS entries ["@ + quoted_row(dns_names(names))
                        + "] do not contain "@ + quoted(server_name),
                },
            )
        },
    }
}

fn keep_dns(names: &Vec<Option<String>>) -> (r: Vec<String>)
    ensures
        views(r@) == dns_names(opt_views(names@)),
{
    let ghost ns = opt_views(names@);
    let mut out: Vec<String> = Vec::new();
    let mut i: usize = 0;
    assert(ns.take(0) =~= Seq::<Option<Seq<char>>>::empty());
    assert(views(out@) =~= Seq::<Seq<char>>::empty());
    while i < names.len()
        invariant
            i <= names@.len(),
            ns == opt_views(names@),
            views(out@) == dns_names(ns.take(i as int)),
        decreases names@.len() - i,
    {
        let ghost done = out@;
        assert(ns.take(i + 1).drop_last() =~= ns.take(i as int));
        if let Some(name) = &names[i] {
            assert(ns[i as int] == Some(name@));
            out.push(owned(name.as_str()));
            assert(views(out@) =~= views(done).push(name@));
        }
        i += 1;
    }
    assert(ns.take(i as int) =~= ns);
    out
}

fn quote_row(names: &Vec<String>) -> (r: String)
    ensures
        r@ == quoted_row(views(names@)),
{
    let ghost ns = views(names@);
    let mut out: String = String::new();
    let mut i: usize = 0;
    assert(ns.take(0) =~= Seq::<Seq<char>>::empty());
    assert(out@ =~= Seq::<char>::empty());
    while i < names.len()
        invariant
            i <= names@.len(),
            ns == views(names@),
            out@ == quoted_row(ns.take(i as int)),
        decreases names@.len() - i,
    {
        let ghost done = out@;
        assert(ns.take(i + 1).drop_last() =~= ns.take(i as int));
        assert(ns[i as int] == names@[i as int]@);
        if i > 0 {
            out.append(", ");
        }
        out.append(quote(names[i].as_str()).as_str());
        proof {
            if i == 0 {
                assert(done + quoted(ns[0]) =~= quoted(ns[0]));
            }
        }
        i += 1;
    }
    assert(ns.take(i as int) =~= ns);
    out
}

fn any_vouches(names: &Vec<String>, name: &str) -> (r: bool)
    ensures
        r == vouches(views(names@), name@),
{
    let ghost ns = views(names@);
    let mut i: usize = 0;
    while i < names.len()
        invariant
            i <= names@.len(),
            ns == views(names@),
            forall|j: int| 0 <= j < i ==> !same_fold(#[trigger] ns[j], name@),
        decreases names@.len() - i,
    {
        assert(ns[i as int] == names@[i as int]@);
        if eq_fold(names[i].as_str(), name) {
            return true;
        }
        i += 1;
    }
    false
}

fn bad_name(path: &str, server_name: &str, head: &str, tail: &str) -> (e: EdgeError)
    ensures
        e@ == (Fault::TlsCertificateName {
            path: path@,
            server_name: server_name@,
            message: head@ + tail@,
        }),
{
    let mut message: String = owned(head);
    message.append(tail);
    EdgeError::TlsCertificateName { path: owned(path), server_name: owned(server_name), message }
}

/// Holds the alternative names of a certificate against the name of the server.
pub fn check_alt_names(path: &str, server_name: &str, names: &AltNames) -> (r: Result<
    (),
    EdgeError,
>)
    ensures
        agrees(r, names_verdict(path@, server_name@, names_view(*names))),
{
    match names {
        Err(fault) => Err(
            bad_name(path, server_name, "failed to parse certificate: ", fault.as_str()),
        ),
        Ok(Err(fault)) => Err(
            bad_name(path, server_name, "invalid subjectAltName extension: ", fault.as_str()),
        ),
        Ok(Ok(None)) => Err(
            EdgeError::TlsCertificateName {
                path: owned(path),
                server_name: owned(server_name),
                message: owned("missing subjectAltName extension"),
            },
        ),
        Ok(Ok(Some(names))) => {
            let dns = keep_dns(names);
            if any_vouches(&dns, server_name) {
                return Ok(());
            }
            let mut message: String = owned("subjectAltName DNS entries [");
            message.append(quote_row(&dns).as_str());
            message.append("] do not contain ");
            message.append(quote(server_name).as_str());
            Err(
                EdgeError::TlsCertificateName {
                    path: owned(path),
                    server_name: owned(server_name),
                    message,
                },
            )
        },
    }
}

/// The bytes of a file, or the words that explain why it could not be read.
pub type FileReading = Result<Vec<u8>, String>;

/// What is wrong with the certificate file at `path`.
pub open spec fn certificate_verdict(
    path: Seq<char>,
    server_name: Seq<char>,
    file: FileReading,
) -> Result<(), Fault> {
    match file {
        Err(message) => Err(
            Fault::TlsFileUnavailable { role: "certificate"@, path, message: message@ },
        ),
        Ok(bytes) => match pem_reading(bytes@) {
            Err(fault) => Err(
                Fault::TlsCertificateName {
                    path,
                    server_name,
                    message: "failed to parse certificate PEM: "@ + fault,
                },
            ),
            Ok(der) => names_verdict(path, server_name, certificate_reading(der)),
        },
    }
}

/// The certificate at `path` must vouch for the name of the server.
pub fn validate_tls_certificate_name(path: &str, server_name: &str, file: &FileReading) -> (r:
    Result<(), EdgeError>)
    ensures
        agrees(r, certificate_verdict(path@, server_name@, *file)),
{
    match file {
        Err(message) => Err(
            EdgeError::TlsFileUnavailable {
                role: "certificate",
                path: owned(path),
                message: owned(message.as_str()),
            },
        ),
        Ok(bytes) => match read_pem(bytes.as_slice()) {
            Err(fault) => Err(
                bad_name(path, server_name, "failed to parse certificate PEM: ", fault.as_str()),
            ),
            Ok(der) => check_alt_names(path, server_name, &read_certificate(der.as_slice())),
        },
    }
}

/// A certificate vouches for a server exactly if one of its alternative names is a DNS name
/// that is the server's, in whatever case and wherever it stands; a certificate that cannot
/// be read, or that has no alternative names, vouches for nobody.
pub proof fn certificates_vouch_by_dns_name(
    path: Seq<char>,
    server_name: Seq<char>,
    names: Seq<Option<Seq<char>>>,
    fault: Seq<char>,
)
    ensures
        names_verdict(path, server_name, Ok(Ok(Some(names)))) is Ok <==> exists|i: int|
            0 <= i < names.len() && (#[trigger] names[i]) is Some && lowered(names[i]->0)
                == lowered(server_name),
        names_verdict(path, server_name, Ok(Ok(None))) is Err,
        names_verdict(path, server_name, Ok(Err(fault))) is Err,
        names_verdict(path, server_name, Err(fault)) is Err,
        forall|n: AltNamesView|
            #[trigger] names_verdict(path, server_name, n) matches Err(f) ==> f
                is TlsCertificateName,
{
    lemma_dns_vouch(names, server_name);
}

proof fn lemma_dns_vouch(names: Seq<Option<Seq<char>>>, name: Seq<char>)
    ensures
        vouches(dns_names(names), name) <==> exists|i: int|
            0 <= i < names.len() && (#[trigger] names[i]) is Some && lowered(names[i]->0)
                == lowered(name),
    decreases names.len(),
{
    if names.len() > 0 {
        let rest = names.drop_last();
        let n = names.len() - 1;
        let before = dns_names(rest);
        let all = dns_names(names);
        lemma_dns_vouch(rest, name);
        assert(names.last() == names[n]);
        if let Some(last) = names[n] {
            case_does_not_count(last, name);
            assert(all == before.push(last));
            if vouches(before, name) {
                let i = choose|i: int| 0 <= i < before.len() && same_fold(#[trigger] before[i], name);
                assert(all[i] == before[i]);
            }
            if same_fold(last, name) {
                assert(all[before.len() as int] == last);
            }
            if vouches(all, name) {
                let i = choose|i: int| 0 <= i < all.len() && same_fold(#[trigger] all[i], name);
                if i < before.len() {
                    assert(before[i] == all[i]);
                }
            }
        }
        if exists|i: int|
            0 <= i < rest.len() && (#[trigger] rest[i]) is Some && lowered(rest[i]->0) == lowered(
                name,
            ) {
            let i = choose|i: int|
                0 <= i < rest.len() && (#[trigger] rest[i]) is Some && lowered(rest[i]->0)
                    == lowered(name);
            assert(names[i] == rest[i]);
        }
        if exists|i: int|
            0 <= i < names.len() && (#[trigger] names[i]) is Some && lowered(names[i]->0)
                == lowered(name) {
            let i = choose|i: int|
                0 <= i < names.len() && (#[trigger] names[i]) is Some && lowered(names[i]->0)
                    == lowered(name);
            if i < n {
                assert(rest[i] == names[i]);
            }
        }
    }
}

/// The row of names is put together of the rows of its parts.
pub proof fn name_rows_join(a: Seq<Seq<char>>, b: Seq<Seq<char>>)
    requires
        a.len() > 0,
        b.len() > 0,
    ensures
        quoted_row(a + b) == quoted_row(a) + ", "@ + quoted_row(b),
        a.len() == 1 ==> quoted_row(a) == quoted(a[0]),
    decreases b.len(),
{
    if b.len() == 1 {
        assert((a + b).drop_last() =~= a);
        assert((a + b).last() == b[0]);
    } else {
        assert((a + b).drop_last() =~= a + b.drop_last());
        name_rows_join(a, b.drop_last());
        assert(quoted_row(a + b) =~= quoted_row(a) + ", "@ + quoted_row(b));
    }
}

} // verus!
