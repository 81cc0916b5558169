use vstd::prelude::*;

use crate::record::{CredentialView, PatchView};
use crate::store::{
    is_latest_for_url, latest_for_url, lemma_latest_is_unique, merged, newer, patched, upserted,
    upserted_record,
};

verus! {

/// Whether some credential is for `url`.
pub open spec fn has_url(rows: Seq<CredentialView>, url: Seq<char>) -> bool {
    exists|j: int| 0 <= j < rows.len() && (#[trigger] rows[j]).url == url
}

/// Where no credential is for a url, none is the most recent one for it.
pub proof fn lemma_no_latest_without_url(rows: Seq<CredentialView>, url: Seq<char>)
    requires
        !has_url(rows, url),
    ensures
        latest_for_url(rows, url) is None,
{
    assert forall|i: int| !is_latest_for_url(rows, url, i) by {
        if 0 <= i < rows.len() {
            assert(rows[i].url != url);
        }
    }
}

/// The credential that is the most recent one for a url is the one that
/// `latest_for_url` names.
pub proof fn lemma_latest_is_named(rows: Seq<CredentialView>, url: Seq<char>, i: int)
    requires
        is_latest_for_url(rows, url, i),
    ensures
        latest_for_url(rows, url) == Some(i),
{
    let chosen = choose|k: int| is_latest_for_url(rows, url, k);
    lemma_latest_is_unique(rows, url, i, chosen);
}

/// What `latest_for_url` names is the most recent credential for the url.
pub proof fn lemma_named_is_latest(rows: Seq<CredentialView>, url: Seq<char>)
    ensures
        match latest_for_url(rows, url) {
            Some(i) => is_latest_for_url(rows, url, i),
            None => true,
        },
{
}

/// After an upsert for a url, the credential that it left is the most recent
/// one for the url, and it stands where `upserted` put it.
pub proof fn lemma_upserted_is_latest(
    rows: Seq<CredentialView>,
    url: Seq<char>,
    username: Seq<char>,
    blob: Seq<char>,
    title: Option<Seq<char>>,
    note: Option<Seq<char>>,
    fresh_id: Seq<char>,
    created_at: Seq<char>,
)
    ensures
        ({
            let record = upserted_record(rows, url, username, blob, title, note, fresh_id, created_at);
            let after = upserted(rows, url, record);
            let at = match latest_for_url(rows, url) {
                Some(i) => i,
                None => rows.len() as int,
            };
            &&& latest_for_url(after, url) == Some(at)
            &&& 0 <= at < after.len()
            &&& after[at] == record
            &&& forall|j: int| 0 <= j < rows.len() && j != at ==> after[j] == rows[j]
        }),
{
    let record = upserted_record(rows, url, username, blob, title, note, fresh_id, created_at);
    let after = upserted(rows, url, record);
    lemma_named_is_latest(rows, url);
    match latest_for_url(rows, url) {
        Some(i) => {
            assert forall|j: int|
                0 <= j < after.len() && j != i && (#[trigger] after[j]).url == url implies newer(
                after,
                i,
                j,
            ) by {
                assert(after[j] == rows[j]);
                assert(newer(rows, i, j));
            }
            assert(is_latest_for_url(after, url, i));
            lemma_latest_is_named(after, url, i);
        },
        None => {
            let at = rows.len() as int;
            assert forall|j: int|
                0 <= j < after.len() && j != at && (#[trigger] after[j]).url == url implies newer(
                after,
                at,
                j,
            ) by {
                assert(after[j] == rows[j]);
                // A credential of `rows` for the url would have a most recent one.
                lemma_some_latest_with_url(rows, url, j);
            }
            assert(is_latest_for_url(after, url, at));
            lemma_latest_is_named(after, url, at);
        },
    }
}

/// Where a credential is for a url, one is the most recent for it.
pub proof fn lemma_some_latest_with_url(rows: Seq<CredentialView>, url: Seq<char>, j: int)
    requires
        0 <= j < rows.len(),
        rows[j].url == url,
    ensures
        latest_for_url(rows, url) is Some,
{
    let best = lemma_best_among(rows, url, rows.len() as int, j);
    assert(is_latest_for_url(rows, url, best));
}

/// Among the first `n` credentials, where one of them is for the url, one is
/// newer than every other of them that is for the url.
proof fn lemma_best_among(rows: Seq<CredentialView>, url: Seq<char>, n: int, j: int) -> (best: int)
    requires
        0 <= j < n <= rows.len(),
        rows[j].url == url,
    ensures
        0 <= best < n,
        rows[best].url == url,
        forall|k: int| 0 <= k < n && k != best && (#[trigger] rows[k]).url == url ==> newer(rows, best, k),
    decreases n,
{
    let last = n - 1;
    if exists|k: int| 0 <= k < last && (#[trigger] rows[k]).url == url {
        let k0 = choose|k: int| 0 <= k < last && (#[trigger] rows[k]).url == url;
        let before = lemma_best_among(rows, url, last, k0);
        if rows[last].url == url {
            crate::text::lemma_text_lt_order(
                rows[before].created_at,
                rows[last].created_at,
                rows[before].created_at,
            );
            if crate::text::text_lt(rows[before].created_at, rows[last].created_at) {
                assert forall|k: int|
                    0 <= k < n && k != last && (#[trigger] rows[k]).url == url implies newer(
                    rows,
                    last,
                    k,
                ) by {
                    if k != before {
                        assert(newer(rows, before, k));
                        crate::text::lemma_text_lt_order(
                            rows[k].created_at,
                            rows[before].created_at,
                            rows[last].created_at,
                        );
                    }
                }
                last
            } else {
                before
            }
        } else {
            before
        }
    } else {
        assert(j == last);
        last
    }
}

/// A second add for the same url adds no entry: it overwrites the username
/// and the password of the credential that the first add left, and keeps its
/// id, its creation time, and each of title and note for which the second add
/// gives no value. Where no credential was for the url before the first add,
/// exactly one is for it afterwards.
pub proof fn lemma_second_add_merges(
    rows: Seq<CredentialView>,
    url: Seq<char>,
    username1: Seq<char>,
    blob1: Seq<char>,
    title1: Option<Seq<char>>,
    note1: Option<Seq<char>>,
    id1: Seq<char>,
    created1: Seq<char>,
    username2: Seq<char>,
    blob2: Seq<char>,
    title2: Option<Seq<char>>,
    note2: Option<Seq<char>>,
    id2: Seq<char>,
    created2: Seq<char>,
)
    ensures
        ({
            let first = upserted_record(rows, url, username1, blob1, title1, note1, id1, created1);
            let once = upserted(rows, url, first);
            let second = upserted_record(once, url, username2, blob2, title2, note2, id2, created2);
            let twice = upserted(once, url, second);
            &&& twice.len() == once.len()
            &&& second.id == first.id
            &&& second.created_at == first.created_at
            &&& second.url == url
            &&& second.username == username2
            &&& second.password == blob2
            &&& second.title == merged(title2, first.title)
            &&& second.note == merged(note2, first.note)
            &&& title2 is None ==> second.title == first.title
            &&& note2 is None ==> second.note == first.note
            &&& !has_url(rows, url) ==> twice == rows.push(second) && forall|j: int|
                0 <= j < twice.len() && (#[trigger] twice[j]).url == url ==> j == rows.len()
        }),
{
    let first = upserted_record(rows, url, username1, blob1, title1, note1, id1, created1);
    let once = upserted(rows, url, first);
    lemma_upserted_is_latest(rows, url, username1, blob1, title1, note1, id1, created1);
    if !has_url(rows, url) {
        lemma_no_latest_without_url(rows, url);
        let second = upserted_record(once, url, username2, blob2, title2, note2, id2, created2);
        let twice = upserted(once, url, second);
        assert(twice =~= rows.push(second));
        assert forall|j: int| 0 <= j < twice.len() && (#[trigger] twice[j]).url == url implies j
            == rows.len() by {
            if j < rows.len() {
                assert(twice[j] == rows[j]);
            }
        }
    }
}

/// An update leaves every field that the patch does not set as it was, the
/// stored ciphertext of the password among them, and never changes the id or
/// the creation time; every other credential of the store stays as it is.
pub proof fn lemma_update_preserves_unset_fields(
    rows: Seq<CredentialView>,
    i: int,
    patch: PatchView,
    blob: Seq<char>,
)
    requires
        0 <= i < rows.len(),
    ensures
        ({
            let record = patched(rows[i], patch, blob);
            let after = rows.update(i, record);
            &&& after.len() == rows.len()
            &&& forall|j: int| 0 <= j < rows.len() && j != i ==> after[j] == rows[j]
            &&& record.id == rows[i].id
            &&& record.created_at == rows[i].created_at
            &&& patch.url is None ==> record.url == rows[i].url
            &&& patch.username is None ==> record.username == rows[i].username
            &&& patch.password is None ==> record.password == rows[i].password
            &&& patch.title is None ==> record.title == rows[i].title
            &&& patch.note is None ==> record.note == rows[i].note
            &&& patch.url matches Some(url) ==> record.url == url
            &&& patch.username matches Some(username) ==> record.username == username
            &&& patch.password is Some ==> record.password == blob
            &&& patch.title is Some ==> record.title == patch.title
            &&& patch.note is Some ==> record.note == patch.note
        }),
{
}

} // verus!
