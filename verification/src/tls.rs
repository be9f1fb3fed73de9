//! Certificates and keys for connections over TLS.

use crate::text::prefixed;
use rustls_pki_types::PrivateKeyDer;
use vstd::prelude::*;
use vstd::string::{StrSliceExecFns, StringExecFns};
use vstd::utf8::encode_utf8;

verus! {

/// How the bytes of a private key encode it.
#[derive(Clone, Copy, Debug, PartialEq, Eq, Structural)]
pub enum KeyFormat {
    Pkcs1,
    Sec1,
    Pkcs8,
    /// A format that the `rustls-pki-types` crate may come to know.
    Other,
}

/// A private key.
pub struct PrivateKey {
    pub format: KeyFormat,
    pub der: Vec<u8>,
}

/// Why a text in PEM form could not be read.
#[derive(Debug)]
pub struct PemError {
    pub message: String,
}

/// The sequences that a list of byte vectors holds.
pub open spec fn bytes_of(list: Seq<Vec<u8>>) -> Seq<Seq<u8>> {
    Seq::new(list.len(), |i: int| list[i]@)
}

/// What the `rustls-pemfile` crate reads as certificates from a text in PEM form, in the order of
/// the text: certificates, and its words on the places that it cannot read.
pub uninterp spec fn pem_certificates(pem: Seq<u8>) -> Seq<Result<Seq<u8>, Seq<char>>>;

/// What the `rustls-pemfile` crate reads as the first private key from a text in PEM form, where
/// there is one, or its words on why it cannot read the text.
pub uninterp spec fn pem_private_key(pem: Seq<u8>) -> Result<
    Option<(KeyFormat, Seq<u8>)>,
    Seq<char>,
>;

/// Certificates, and words on what cannot be read, as contracts see them.
pub open spec fn items_view(items: Seq<Result<Vec<u8>, String>>) -> Seq<Result<Seq<u8>, Seq<char>>> {
    Seq::new(
        items.len(),
        |i: int|
            match items[i] {
                Ok(der) => Ok(der@),
                Err(words) => Err(words@),
            },
    )
}

/// All certificates, or the first words on what cannot be read.
pub open spec fn all_or_first_error(items: Seq<Result<Seq<u8>, Seq<char>>>) -> Result<
    Seq<Seq<u8>>,
    Seq<char>,
>
    decreases items.len(),
{
    if items.len() == 0 {
        Ok(Seq::empty())
    } else {
        match (all_or_first_error(items.drop_last()), items.last()) {
            (Err(words), _) => Err(words),
            (Ok(_), Err(words)) => Err(words),
            (Ok(list), Ok(der)) => Ok(list.push(der)),
        }
    }
}

/// A private key, or words on why there is none, as contracts see it.
pub open spec fn private_key_view(
    result: Result<Option<(KeyFormat, Vec<u8>)>, String>,
) -> Result<Option<(KeyFormat, Seq<u8>)>, Seq<char>> {
    match result {
        Ok(Some(key)) => Ok(Some((key.0, key.1@))),
        Ok(None) => Ok(None),
        Err(words) => Err(words@),
    }
}

/// `rustls_pemfile::certs`, on bytes in memory: the certificates of the text in their order, each
/// as the bytes that it encodes, and between them the crate's words on what it cannot read.
#[verifier::external_body]
fn read_certificates(pem: &[u8]) -> (result: Vec<Result<Vec<u8>, String>>)
    ensures
        items_view(result@) == pem_certificates(pem@),
{
    let mut reader = pem;
    rustls_pemfile::certs(&mut reader)
        .map(|item| item.map(|der| der.to_vec()).map_err(|error| error.to_string()))
        .collect()
}

/// `rustls_pemfile::private_key`, on bytes in memory: the first private key of the text, of
/// whatever format, where there is one.
#[verifier::external_body]
fn read_private_key(pem: &[u8]) -> (result: Result<Option<(KeyFormat, Vec<u8>)>, String>)
    ensures
        private_key_view(result) == pem_private_key(pem@),
{
    let mut reader = pem;
    let key = rustls_pemfile::private_key(&mut reader).map_err(|error| error.to_string())?;
    Ok(key.map(|key| match key {
        PrivateKeyDer::Pkcs1(key) => (KeyFormat::Pkcs1, key.secret_pkcs1_der().to_vec()),
        PrivateKeyDer::Sec1(key) => (KeyFormat::Sec1, key.secret_sec1_der().to_vec()),
        PrivateKeyDer::Pkcs8(key) => (KeyFormat::Pkcs8, key.secret_pkcs8_der().to_vec()),
        key => (KeyFormat::Other, key.secret_der().to_vec()),
    }))
}

/// Where nothing in a list is an error, the result holds as many certificates as the list, each of
/// them at its place. Where something is, the result is the error that stands first.
pub proof fn lemma_all_or_first_error(items: Seq<Result<Seq<u8>, Seq<char>>>)
    ensures
        all_or_first_error(items) is Ok <==> forall|i: int|
            0 <= i < items.len() ==> (#[trigger] items[i]) is Ok,
        all_or_first_error(items) matches Ok(list) ==> {
            &&& list.len() == items.len()
            &&& forall|i: int|
                0 <= i < items.len() ==> items[i] == Ok::<Seq<u8>, Seq<char>>(#[trigger] list[i])
        },
        all_or_first_error(items) matches Err(words) ==> exists|k: int|
            {
                &&& 0 <= k < items.len()
                &&& (#[trigger] items[k]) == Err::<Seq<u8>, Seq<char>>(words)
                &&& forall|j: int| 0 <= j < k ==> (#[trigger] items[j]) is Ok
            },
    decreases items.len(),
{
    if items.len() > 0 {
        let rest = items.drop_last();
        lemma_all_or_first_error(rest);
        let last = items.len() - 1;
        assert(items.last() == items[last]);
        assert forall|i: int| 0 <= i < rest.len() implies #[trigger] rest[i] == items[i] by {}
        if all_or_first_error(rest) is Ok {
            assert forall|i: int| 0 <= i < last implies (#[trigger] items[i]) is Ok by {
                assert(rest[i] is Ok);
            }
            if let Ok(list) = all_or_first_error(items) {
                assert forall|i: int| 0 <= i < items.len() implies items[i] == Ok::<
                    Seq<u8>,
                    Seq<char>,
                >(#[trigger] list[i]) by {
                    if i < last {
                        assert(rest[i] == Ok::<Seq<u8>, Seq<char>>(
                            all_or_first_error(rest)->Ok_0[i],
                        ));
                    }
                }
            }
        } else {
            let k = choose|k: int|
                {
                    &&& 0 <= k < rest.len()
                    &&& (#[trigger] rest[k]) == Err::<Seq<u8>, Seq<char>>(
                        all_or_first_error(rest)->Err_0,
                    )
                    &&& forall|j: int| 0 <= j < k ==> (#[trigger] rest[j]) is Ok
                };
            assert(items[k] is Err);
            assert forall|j: int| 0 <= j < k implies (#[trigger] items[j]) is Ok by {
                assert(rest[j] is Ok);
            }
        }
    }
}

/// Two lists whose certificates follow one another give the certificates of the one and then those
/// of the other; an error in the first list goes before one in the second.
pub proof fn lemma_lists_in_a_row(
    items: Seq<Result<Seq<u8>, Seq<char>>>,
    more: Seq<Result<Seq<u8>, Seq<char>>>,
)
    ensures
        all_or_first_error(items + more) == match (
            all_or_first_error(items),
            all_or_first_error(more),
        ) {
            (Err(words), _) => Err(words),
            (Ok(_), Err(words)) => Err(words),
            (Ok(list), Ok(rest)) => Ok(list + rest),
        },
    decreases more.len(),
{
    if more.len() == 0 {
        assert(items + more == items);
        if let Ok(list) = all_or_first_error(items) {
            assert(list + Seq::<Seq<u8>>::empty() == list);
        }
    } else {
        lemma_lists_in_a_row(items, more.drop_last());
        assert((items + more).drop_last() == items + more.drop_last());
        if let (Ok(list), Ok(rest)) = (
            all_or_first_error(items),
            all_or_first_error(more.drop_last()),
        ) {
            if let Ok(der) = more.last() {
                assert((list + rest).push(der) == list + rest.push(der));
            }
        }
    }
}

/// Contracts see each list and each key as it is: nothing of it is left out, added or changed.
pub proof fn lemma_views_keep_all(
    list: Seq<Vec<u8>>,
    items: Seq<Result<Vec<u8>, String>>,
    key: Result<Option<(KeyFormat, Vec<u8>)>, String>,
)
    ensures
        bytes_of(list).len() == list.len(),
        forall|i: int| 0 <= i < list.len() ==> #[trigger] bytes_of(list)[i] == list[i]@,
        items_view(items).len() == items.len(),
        forall|i: int|
            0 <= i < items.len() ==> {
                &&& items[i] matches Ok(der) ==> #[trigger] items_view(items)[i] == Ok::<
                    Seq<u8>,
                    Seq<char>,
                >(der@)
                &&& items[i] matches Err(words) ==> items_view(items)[i] == Err::<
                    Seq<u8>,
                    Seq<char>,
                >(words@)
            },
        key matches Ok(Some(found)) ==> private_key_view(key) == Ok::<
            Option<(KeyFormat, Seq<u8>)>,
            Seq<char>,
        >(Some((found.0, found.1@))),
        key matches Ok(None) ==> private_key_view(key) == Ok::<
            Option<(KeyFormat, Seq<u8>)>,
            Seq<char>,
        >(None),
        key matches Err(words) ==> private_key_view(key) == Err::<
            Option<(KeyFormat, Seq<u8>)>,
            Seq<char>,
        >(words@),
{
}

/// An error of the start of a list is the error of the whole list.
proof fn lemma_error_stays(items: Seq<Result<Seq<u8>, Seq<char>>>, count: int)
    requires
        0 <= count <= items.len(),
        all_or_first_error(items.take(count)) is Err,
    ensures
        all_or_first_error(items) == all_or_first_error(items.take(count)),
    decreases items.len(),
{
    if count == items.len() {
        assert(items.take(count) == items);
    } else {
        assert(items.drop_last().take(count) == items.take(count));
        lemma_error_stays(items.drop_last(), count);
    }
}

/// The certificates of a list, where nothing in it could not be read, and otherwise the first
/// error.
pub fn gathered(items: Vec<Result<Vec<u8>, String>>) -> (result: Result<Vec<Vec<u8>>, PemError>)
    ensures
        match all_or_first_error(items_view(items@)) {
            Ok(list) => result matches Ok(certificates) && bytes_of(certificates@) == list,
            Err(words) => result matches Err(error) && error.message@ == words,
        },
        result is Ok <==> forall|i: int| 0 <= i < items@.len() ==> (#[trigger] items@[i]) is Ok,
        result matches Ok(certificates) ==> {
            &&& certificates@.len() == items@.len()
            &&& forall|i: int|
                0 <= i < items@.len() ==> (#[trigger] certificates@[i])@ == items@[i]->Ok_0@
        },
        result matches Err(error) ==> exists|k: int|
            {
                &&& 0 <= k < items@.len()
                &&& (#[trigger] items@[k]) is Err
                &&& error.message@ == items@[k]->Err_0@
                &&& forall|j: int| 0 <= j < k ==> (#[trigger] items@[j]) is Ok
            },
{
    let ghost given = items@;
    let ghost all = items_view(given);
    let mut list: Vec<Vec<u8>> = Vec::new();
    assert(bytes_of(list@) == Seq::<Seq<u8>>::empty());
    for item in iter: items
        invariant
            iter.seq() == given,
            all == items_view(given),
            list@.len() == iter.index(),
            forall|i: int| 0 <= i < list@.len() ==> (#[trigger] given[i]) is Ok,
            forall|i: int|
                0 <= i < list@.len() ==> (#[trigger] list@[i])@ == given[i]->Ok_0@,
            all_or_first_error(all.take(iter.index() as int)) == Ok::<Seq<Seq<u8>>, Seq<char>>(
                bytes_of(list@),
            ),
    {
        let ghost done = iter.index() as int;
        assert(all.take(done + 1).drop_last() == all.take(done));
        match item {
            Ok(der) => {
                let ghost before = list@;
                list.push(der);
                assert(bytes_of(list@) == bytes_of(before).push(der@));
            },
            Err(message) => {
                proof {
                    lemma_error_stays(all, done + 1);
                    assert(given[done] is Err);
                }
                return Err(PemError { message });
            },
        }
    }
    assert(all.take(all.len() as int) == all);
    Ok(list)
}

/// The certificates of a file in PEM form, from what the file holds: all of them, or the first
/// error.
pub fn load_certs(pem: &[u8]) -> (result: Result<Vec<Vec<u8>>, PemError>)
    ensures
        match all_or_first_error(pem_certificates(pem@)) {
            Ok(list) => result matches Ok(certificates) && bytes_of(certificates@) == list,
            Err(words) => result matches Err(error) && error.message@ == words,
        },
        result is Ok <==> forall|i: int|
            0 <= i < pem_certificates(pem@).len() ==> (#[trigger] pem_certificates(pem@)[i]) is Ok,
        result matches Ok(certificates) ==> {
            &&& certificates@.len() == pem_certificates(pem@).len()
            &&& forall|i: int|
                0 <= i < certificates@.len() ==> (#[trigger] certificates@[i])@
                    == pem_certificates(pem@)[i]->Ok_0
        },
        result matches Err(error) ==> exists|k: int|
            {
                &&& 0 <= k < pem_certificates(pem@).len()
                &&& (#[trigger] pem_certificates(pem@)[k]) == Err::<Seq<u8>, Seq<char>>(
                    error.message@,
                )
                &&& forall|j: int|
                    0 <= j < k ==> (#[trigger] pem_certificates(pem@)[j]) is Ok
            },
{
    let items = read_certificates(pem);
    proof {
        lemma_all_or_first_error(pem_certificates(pem@));
    }
    gathered(items)
}

/// The first private key of a file in PEM form, where there is one, from what the file holds.
pub fn load_private_key(pem: &[u8]) -> (result: Result<Option<PrivateKey>, PemError>)
    ensures
        match pem_private_key(pem@) {
            Ok(Some(found)) => result matches Ok(Some(key)) && key.format == found.0 && key.der@
                == found.1,
            Ok(None) => result matches Ok(None),
            Err(words) => result matches Err(error) && error.message@ == words,
        },
{
    match read_private_key(pem) {
        Ok(Some(key)) => Ok(Some(PrivateKey { format: key.0, der: key.1 })),
        Ok(None) => Ok(None),
        Err(message) => Err(PemError { message }),
    }
}

/// What is said of a file that cannot be opened.
pub fn open_failure(filename: &str, cause: &str) -> (result: String)
    ensures
        result@ == "failed to open "@ + filename@ + ": "@ + cause@,
{
    let mut result = prefixed("failed to open ", filename);
    result.append(": ");
    result.append(cause);
    result
}

/// The protocols to offer over TLS, the preferred one first.
pub fn alpn_protocols() -> (result: Vec<Vec<u8>>)
    ensures
        bytes_of(result@) == seq![encode_utf8("http/1.1"@), encode_utf8("http/1.0"@)],
{
    let mut result: Vec<Vec<u8>> = Vec::new();
    result.push("http/1.1".as_bytes_vec());
    result.push("http/1.0".as_bytes_vec());
    result
}

} // verus!
