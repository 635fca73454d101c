//! Storing the rule set: its bytes in CBOR, under a version tag, and the
//! way back.

use vstd::prelude::*;
use crate::app_data::{admin_entries, AppData};
use crate::text::texts;

verus! {

/// The error type of `serde_cbor`, carried through and never looked into.
#[verifier::external_type_specification]
#[verifier::external_body]
pub struct ExCborError(serde_cbor::Error);

/// The version tag that stored rule sets carry.
pub const FORMAT_VERSION: u64 = 1;

/// Why a rule set could not be stored or read back.
#[derive(Clone, Copy, Debug, PartialEq, Eq, Structural)]
pub enum PersistError {
    /// What the encoder wrote does not read back as the rule set.
    Encode,
    /// The bytes are not a stored rule set.
    Malformed,
    /// The bytes are a stored rule set of another version, the one given.
    Version(u64),
}

/// The bytes that `serde_cbor::to_vec` gives for a version tag, a list of
/// phrases and a list of administrators, taken as a tuple of three.
pub uninterp spec fn cbor_encoding(
    version: u64,
    words: Seq<Seq<char>>,
    admins: Seq<(Seq<char>, u64)>,
) -> Seq<u8>;

/// What `serde_cbor::from_slice` reads from bytes as a tuple of a version
/// tag, a list of phrases and a list of administrators; `None` where it
/// refuses them.
pub uninterp spec fn cbor_decoding(bytes: Seq<u8>) -> Option<
    (u64, Seq<Seq<char>>, Seq<(Seq<char>, u64)>),
>;

/// Calls `serde_cbor::to_vec` on the tuple of the three arguments. It
/// writes into a vector, which takes every byte, and no step of encoding an
/// integer, a text, a list or a tuple refuses its value, so the call
/// succeeds. The encoding depends on the three values alone; the contract
/// gives it its name and says no more of it.
#[verifier::external_body]
fn to_vec(version: u64, words: &Vec<String>, admins: &Vec<(String, u64)>) -> (r: Result<
    Vec<u8>,
    serde_cbor::Error,
>)
    ensures
        r is Ok,
        match r {
            Ok(bytes) => bytes@ == cbor_encoding(version, texts(words@), admin_entries(admins@)),
            Err(_) => false,
        },
{
    serde_cbor::to_vec(&(version, words, admins))
}

/// Calls `serde_cbor::from_slice` for a tuple of a version tag, a list of
/// phrases and a list of administrators. What is read depends on the bytes
/// alone; the contract gives it its name and says no more of it.
#[verifier::external_body]
fn from_slice(bytes: &[u8]) -> (r: Result<(u64, Vec<String>, Vec<(String, u64)>), serde_cbor::Error>)
    ensures
        match r {
            Ok(v) => cbor_decoding(bytes@) == Some((v.0, texts(v.1@), admin_entries(v.2@))),
            Err(_) => cbor_decoding(bytes@) is None,
        },
{
    serde_cbor::from_slice::<(u64, Vec<String>, Vec<(String, u64)>)>(bytes)
}

/// The bytes under which a rule set is stored: its encoding, where that
/// decodes to the same version tag, phrases and administrators again.
pub open spec fn stored_bytes(
    version: u64,
    words: Seq<Seq<char>>,
    admins: Seq<(Seq<char>, u64)>,
) -> Option<Seq<u8>> {
    let bytes = cbor_encoding(version, words, admins);
    if cbor_decoding(bytes) == Some((version, words, admins)) {
        Some(bytes)
    } else {
        None
    }
}

/// What reading stored bytes back gives: the rule set that they decode to,
/// or why there is none.
pub open spec fn restored(bytes: Seq<u8>, r: Result<AppData, PersistError>) -> bool {
    match cbor_decoding(bytes) {
        Some((version, words, admins)) => stored_rule_set(version, words, admins, r),
        None => r == Err::<AppData, PersistError>(PersistError::Malformed),
    }
}

/// Storing and reading back gives the rule set again: the bytes that a rule
/// set is stored under are read back as a rule set with the same phrases
/// and the same administrators, each list in the same order.
pub proof fn lemma_restore_inverts_persist(
    data: AppData,
    bytes: Seq<u8>,
    back: Result<AppData, PersistError>,
)
    requires
        stored_bytes(FORMAT_VERSION, data.word_texts(), data.admin_list()) == Some(bytes),
        restored(bytes, back),
    ensures
        back matches Ok(d) && d.word_texts() == data.word_texts() && d.admin_list()
            == data.admin_list(),
{
}

/// Whether two lists hold the same texts in the same order.
fn same_words(a: &Vec<String>, b: &Vec<String>) -> (r: bool)
    ensures
        r == (texts(a@) == texts(b@)),
{
    if a.len() != b.len() {
        assert(texts(a@).len() != texts(b@).len());
        return false;
    }
    let mut i: usize = 0;
    while i < a.len()
        invariant
            a@.len() == b@.len(),
            i <= a@.len(),
            forall|k: int| 0 <= k < i ==> (#[trigger] a@[k])@ == b@[k]@,
        decreases a@.len() - i,
    {
        if a[i] != b[i] {
            assert(texts(a@)[i as int] != texts(b@)[i as int]);
            return false;
        }
        i += 1;
    }
    assert(texts(a@) =~= texts(b@));
    true
}

/// Whether two lists hold the same administrators in the same order.
fn same_admins(a: &Vec<(String, u64)>, b: &Vec<(String, u64)>) -> (r: bool)
    ensures
        r == (admin_entries(a@) == admin_entries(b@)),
{
    if a.len() != b.len() {
        assert(admin_entries(a@).len() != admin_entries(b@).len());
        return false;
    }
    let mut i: usize = 0;
    while i < a.len()
        invariant
            a@.len() == b@.len(),
            i <= a@.len(),
            forall|k: int|
                0 <= k < i ==> (#[trigger] a@[k]).0@ == b@[k].0@ && a@[k].1 == b@[k].1,
        decreases a@.len() - i,
    {
        if a[i].0 != b[i].0 || a[i].1 != b[i].1 {
            assert(admin_entries(a@)[i as int] != admin_entries(b@)[i as int]);
            return false;
        }
        i += 1;
    }
    assert(admin_entries(a@) =~= admin_entries(b@));
    true
}

/// The rule set that a decoded tuple stands for: the phrases and the
/// administrators in their stored order, where the version tag is the
/// current one.
pub open spec fn stored_rule_set(
    version: u64,
    words: Seq<Seq<char>>,
    admins: Seq<(Seq<char>, u64)>,
    r: Result<AppData, PersistError>,
) -> bool {
    if version == FORMAT_VERSION {
        r matches Ok(data) && data.word_texts() == words && data.admin_list() == admins
    } else {
        r == Err::<AppData, PersistError>(PersistError::Version(version))
    }
}

impl AppData {
    /// Whether a decoded version tag and its two lists are this rule set
    /// under the current version: the same phrases and the same
    /// administrators, each list in the same order.
    pub fn is_stored_as(
        &self,
        version: u64,
        words: &Vec<String>,
        admins: &Vec<(String, u64)>,
    ) -> (r: bool)
        ensures
            r == (version == FORMAT_VERSION && texts(words@) == self.word_texts() && admin_entries(
                admins@,
            ) == self.admin_list()),
    {
        version == FORMAT_VERSION && same_words(words, &self.words) && same_admins(
            admins,
            &self.admins,
        )
    }

    /// The bytes to store for this rule set: the encoding of the current
    /// version tag, the phrases and the administrators. The bytes are
    /// decoded again before they are handed out, and given only where they
    /// read back as this rule set.
    pub fn persist(&self) -> (r: Result<Vec<u8>, PersistError>)
        ensures
            match stored_bytes(FORMAT_VERSION, self.word_texts(), self.admin_list()) {
                Some(bytes) => r matches Ok(out) && out@ == bytes,
                None => r == Err::<Vec<u8>, PersistError>(PersistError::Encode),
            },
    {
        match to_vec(FORMAT_VERSION, &self.words, &self.admins) {
            Ok(bytes) => {
                let reads_back = match from_slice(bytes.as_slice()) {
                    Ok((version, words, admins)) => self.is_stored_as(version, &words, &admins),
                    Err(_) => false,
                };
                if reads_back {
                    Ok(bytes)
                } else {
                    Err(PersistError::Encode)
                }
            },
            Err(_) => Err(PersistError::Encode),
        }
    }

    /// The rule set for a decoded version tag and its two lists. A tag other
    /// than the current one is refused.
    pub fn from_stored(version: u64, words: Vec<String>, admins: Vec<(String, u64)>) -> (r: Result<
        AppData,
        PersistError,
    >)
        ensures
            stored_rule_set(version, texts(words@), admin_entries(admins@), r),
    {
        if version != FORMAT_VERSION {
            return Err(PersistError::Version(version));
        }
        Ok(AppData { words, admins })
    }

    /// Reads a stored rule set back. Bytes that do not decode are
    /// `Malformed`; the caller decides whether that ends the program.
    pub fn restore(bytes: &[u8]) -> (r: Result<AppData, PersistError>)
        ensures
            restored(bytes@, r),
    {
        match from_slice(bytes) {
            Ok((version, words, admins)) => AppData::from_stored(version, words, admins),
            Err(_) => Err(PersistError::Malformed),
        }
    }
}

} // verus!
