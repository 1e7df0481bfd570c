//! The journal of panels whose startup image upload has begun.
use vstd::prelude::*;

use crate::table::{texts, IdSet};

verus! {

/// How many bytes a journal may have.
pub const JOURNAL_LIMIT: usize = 65_536;

/// Why a journal could not be read.
#[derive(Clone, Copy, Debug, PartialEq, Eq, Structural)]
pub enum JournalError {
    Oversized,
    Invalid,
}

/// The error of the JSON library.
#[verifier::external_type_specification]
#[verifier::external_body]
pub struct JsonError(serde_json::Error);

/// The strings of the JSON array of strings that the bytes are, if they are one.
pub uninterp spec fn json_strings(data: Seq<u8>) -> Option<Seq<Seq<char>>>;

/// `serde_json::from_slice` for a list of strings: it succeeds exactly on the bytes that are a
/// JSON array of strings, and gives those strings in their order.
#[verifier::external_body]
fn parse_strings(data: &[u8]) -> (ids: Result<Vec<String>, serde_json::Error>)
    ensures
        ids is Ok <==> json_strings(data@) is Some,
        ids matches Ok(ids) ==> json_strings(data@) == Some(texts(ids@)),
{
    serde_json::from_slice(data)
}

/// `serde_json::to_vec` for a list of strings: it always succeeds, and what it writes is a JSON
/// array of these strings.
#[verifier::external_body]
fn write_strings(ids: &Vec<String>) -> (data: Result<Vec<u8>, serde_json::Error>)
    ensures
        data is Ok,
        data matches Ok(data) ==> json_strings(data@) == Some(texts(ids@)),
{
    serde_json::to_vec(ids)
}

/// The panels that a journal lists.
pub open spec fn journal_ids(data: Seq<u8>) -> Result<Set<Seq<char>>, JournalError> {
    if data.len() > JOURNAL_LIMIT {
        Err(JournalError::Oversized)
    } else {
        match json_strings(data) {
            Some(ids) => Ok(ids.to_set()),
            None => Err(JournalError::Invalid),
        }
    }
}

/// The set of the listed panels.
pub fn ids_of(list: Vec<String>) -> (ids: IdSet)
    ensures
        ids@ == texts(list@).to_set(),
{
    let mut ids = IdSet::new();
    let mut i: usize = 0;
    while i < list.len()
        invariant
            i <= list@.len(),
            forall|id: Seq<char>| #[trigger]
                ids@.contains(id) <==> exists|j: int| 0 <= j < i && #[trigger] texts(list@)[j] == id,
        decreases list@.len() - i,
    {
        let ghost before = ids@;
        ids.insert(list[i].clone());
        assert(texts(list@)[i as int] == list@[i as int]@);
        assert forall|id: Seq<char>| #[trigger] ids@.contains(id) implies exists|j: int|
            0 <= j < i + 1 && #[trigger] texts(list@)[j] == id by {
            if !before.contains(id) {
                assert(texts(list@)[i as int] == id);
            }
        }
        i += 1;
    }
    assert(ids@ =~= texts(list@).to_set());
    ids
}

/// Reads a journal. Where there is none, no panel is listed.
pub fn load_quarantine(data: Option<&[u8]>) -> (ids: Result<IdSet, JournalError>)
    ensures
        match data {
            Some(data) => match ids {
                Ok(ids) => journal_ids(data@) == Ok::<Set<Seq<char>>, JournalError>(ids@),
                Err(error) => journal_ids(data@) == Err::<Set<Seq<char>>, JournalError>(error),
            },
            None => ids matches Ok(ids) && ids@ == Set::<Seq<char>>::empty(),
        },
{
    let data = match data {
        Some(data) => data,
        None => {
            return Ok(IdSet::new());
        },
    };
    if data.len() > JOURNAL_LIMIT {
        return Err(JournalError::Oversized);
    }
    match parse_strings(data) {
        Ok(list) => Ok(ids_of(list)),
        Err(_) => Err(JournalError::Invalid),
    }
}

/// Writes a journal. What it lists can be read back, as long as it is not oversized.
pub fn write_quarantine(ids: &IdSet) -> (data: Vec<u8>)
    ensures
        json_strings(data@) == Some(ids.order()),
        data@.len() <= JOURNAL_LIMIT ==> journal_ids(data@) == Ok::<Set<Seq<char>>, JournalError>(
            ids@,
        ),
{
    let n: usize = ids.len();
    let mut list: Vec<String> = Vec::new();
    let mut i: usize = 0;
    while i < n
        invariant
            i <= n,
            n == ids.order().len(),
            list@.len() == i,
            forall|j: int| 0 <= j < i ==> (#[trigger] list@[j])@ == ids.order()[j],
        decreases n - i,
    {
        list.push(ids.id(i).clone());
        i += 1;
    }
    assert(texts(list@) =~= ids.order());
    match write_strings(&list) {
        Ok(data) => data,
        Err(_) => {
            assert(false);
            Vec::new()
        },
    }
}

/// A journal is read up to 65536 bytes. What it lists is blocked, and nothing else; no journal
/// blocks nothing.
pub proof fn lemma_journals_list_what_is_blocked(
    data: Option<&[u8]>,
    ids: Result<IdSet, JournalError>,
    id: Seq<char>,
)
    requires
        call_ensures(load_quarantine, (data,), ids),
    ensures
        data is None ==> ids is Ok && !ids->Ok_0@.contains(id),
        data matches Some(data) ==> {
            &&& ids matches Err(error) ==> {
                &&& error is Oversized <==> data@.len() > 65_536
                &&& error is Invalid <==> data@.len() <= 65_536
            }
            &&& ids is Ok <==> data@.len() <= 65_536 && json_strings(data@) is Some
            &&& ids is Ok ==> (ids->Ok_0@.contains(id) <==> exists|i: int|
                0 <= i < json_strings(data@)->0.len() && #[trigger] json_strings(data@)->0[i] == id)
        },
{
    if let Some(data) = data {
        if ids is Ok && ids->Ok_0@.contains(id) {
            let list = json_strings(data@)->0;
            assert(list.contains(id));
            let i = choose|i: int| 0 <= i < list.len() && list[i] == id;
            assert(list[i] == id);
        }
    }
}

/// What was written to a journal is read back from it, as long as it has at most 65536 bytes.
pub proof fn lemma_journals_read_back(
    ids: &IdSet,
    data: Vec<u8>,
    file: &[u8],
    loaded: Result<IdSet, JournalError>,
    id: Seq<char>,
)
    requires
        call_ensures(write_quarantine, (ids,), data),
        file@ == data@,
        call_ensures(load_quarantine, (Some(file),), loaded),
    ensures
        loaded is Ok <==> data@.len() <= 65_536,
        loaded is Ok ==> (loaded->Ok_0@.contains(id) <==> ids@.contains(id)),
{
}

} // verus!
