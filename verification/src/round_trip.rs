use vstd::prelude::*;

use crate::consistency::lemma_no_latest_without_url;
use crate::order::{is_ranking, lemma_ranking_has_no_duplicates};
use crate::record::CredentialView;
use crate::store::{shown, text_or_empty, upserted, upserted_record, SeedView};
use crate::transfer::{
    created_times, credential_fields, credential_header, credential_row, credential_rows, every,
    field, position_of, replay_step, replayed, CredentialFields,
};

verus! {

/// Under the header of exported credentials, the columns of a credential
/// stand where the header names them.
pub proof fn lemma_header_names_columns()
    ensures
        position_of(credential_header(), "url"@) == Some(1int),
        position_of(credential_header(), "username"@) == Some(2int),
        position_of(credential_header(), "password"@) == Some(3int),
        position_of(credential_header(), "title"@) == Some(4int),
        position_of(credential_header(), "note"@) == Some(5int),
{
    reveal_strlit("id");
    reveal_strlit("url");
    reveal_strlit("username");
    reveal_strlit("password");
    reveal_strlit("title");
    reveal_strlit("note");
    reveal_strlit("created_at");
    let h = credential_header();
    assert("id"@.len() == 2 && "url"@.len() == 3 && "username"@.len() == 8 && "password"@.len() == 8
        && "title"@.len() == 5 && "note"@.len() == 4);
    assert("username"@[0] != "password"@[0]);
    assert("username"@ != "password"@);
    assert("id"@ != "url"@ && "id"@ != "username"@ && "id"@ != "password"@ && "id"@ != "title"@
        && "id"@ != "note"@);
    assert("url"@ != "username"@ && "url"@ != "password"@ && "url"@ != "title"@ && "url"@
        != "note"@);
    assert("username"@ != "title"@ && "username"@ != "note"@ && "password"@ != "title"@
        && "password"@ != "note"@ && "title"@ != "note"@);
    assert(h[0] == "id"@ && h[1] == "url"@ && h[2] == "username"@ && h[3] == "password"@ && h[4]
        == "title"@ && h[5] == "note"@ && h[6] == "created_at"@);
    crate::transfer::lemma_position_of_first(h, "url"@, 1);
    crate::transfer::lemma_position_of_first(h, "username"@, 2);
    crate::transfer::lemma_position_of_first(h, "password"@, 3);
    crate::transfer::lemma_position_of_first(h, "title"@, 4);
    crate::transfer::lemma_position_of_first(h, "note"@, 5);
}

/// What an exported row holds when it is read back: the url, the username
/// and the password of the credential, and its title and its note, each of
/// them the empty text where the credential had none.
pub proof fn lemma_exported_row_reads_back(row: CredentialView)
    ensures
        credential_fields(credential_header(), credential_row(row)) == Ok::<
            CredentialFields,
            crate::error::VaultError,
        >(
            CredentialFields {
                url: row.url,
                username: row.username,
                password: row.password,
                title: Some(text_or_empty(row.title)),
                note: Some(text_or_empty(row.note)),
            },
        ),
{
    lemma_header_names_columns();
    let h = credential_header();
    let r = credential_row(row);
    assert(r.len() == 7);
    assert(field(h, r, "url"@, 0) == Some(r[1]));
    assert(field(h, r, "username"@, 1) == Some(r[2]));
    assert(field(h, r, "password"@, 2) == Some(r[3]));
    assert(field(h, r, "title"@, 3) == Some(r[4]));
    assert(field(h, r, "note"@, 4) == Some(r[5]));
}

/// The credential that comes of reading an exported credential back under
/// a seed: what a reader was shown, under the seed's id and creation time,
/// with an absent title or note turned into the empty text.
pub open spec fn read_back(row: CredentialView, seed: SeedView) -> CredentialView {
    CredentialView {
        id: seed.id,
        url: row.url,
        username: row.username,
        password: row.password,
        title: Some(text_or_empty(row.title)),
        note: Some(text_or_empty(row.note)),
        created_at: seed.created_at,
    }
}

/// The credentials that come of reading the first `done` rows of an export
/// back.
pub open spec fn read_back_rows(
    rows: Seq<CredentialView>,
    secret: Option<Seq<char>>,
    order: Seq<usize>,
    seeds: Seq<SeedView>,
    done: nat,
) -> Seq<CredentialView> {
    Seq::new(done, |k: int| read_back(shown(secret, rows[order[k] as int]), seeds[k]))
}

/// Importing the first rows of an export into an empty store adds one
/// credential for each of them, where the urls of the exported credentials
/// differ from one another.
proof fn lemma_replay_of_export(
    rows: Seq<CredentialView>,
    secret: Option<Seq<char>>,
    order: Seq<usize>,
    seeds: Seq<SeedView>,
    done: nat,
)
    requires
        is_ranking(created_times(rows), every(rows.len()), order),
        forall|i: int, j: int|
            0 <= i < j < rows.len() ==> (#[trigger] rows[i]).url != (#[trigger] rows[j]).url,
        done <= order.len(),
        done <= seeds.len(),
    ensures
        replayed(
            Seq::<CredentialView>::empty(),
            credential_header(),
            credential_rows(rows, secret, order),
            seeds,
            done,
        ) == Ok::<Seq<CredentialView>, crate::error::VaultError>(
            read_back_rows(rows, secret, order, seeds, done),
        ),
    decreases done,
{
    let table = credential_rows(rows, secret, order);
    let header = credential_header();
    if done == 0 {
        assert(read_back_rows(rows, secret, order, seeds, 0) =~= Seq::<CredentialView>::empty());
    } else {
        let k = (done - 1) as int;
        lemma_replay_of_export(rows, secret, order, seeds, (done - 1) as nat);
        let taken = read_back_rows(rows, secret, order, seeds, (done - 1) as nat);
        let source = shown(secret, rows[order[k] as int]);
        assert(table[k] == credential_row(source));
        lemma_exported_row_reads_back(source);
        lemma_ranking_has_no_duplicates(created_times(rows), every(rows.len()), order);
        assert forall|j: int| 0 <= j < taken.len() implies (#[trigger] taken[j]).url
            != source.url by {
            let a = order[j] as int;
            let b = order[k] as int;
            assert(order[j] != order[k]);
            assert(order[j] < rows.len() && order[k] < rows.len());
            if a < b {
                assert(rows[a].url != rows[b].url);
            } else {
                assert(rows[b].url != rows[a].url);
            }
        }
        lemma_no_latest_without_url(taken, source.url);
        let record = upserted_record(
            taken,
            source.url,
            source.username,
            source.password,
            Some(text_or_empty(source.title)),
            Some(text_or_empty(source.note)),
            seeds[k].id,
            seeds[k].created_at,
        );
        assert(record == read_back(source, seeds[k]));
        assert(upserted(taken, source.url, record) =~= read_back_rows(
            rows,
            secret,
            order,
            seeds,
            done,
        ));
        assert(replay_step(taken, header, table[k], seeds[k]) == Ok::<
            Seq<CredentialView>,
            crate::error::VaultError,
        >(read_back_rows(rows, secret, order, seeds, done)));
    }
}

/// Exporting the credentials and importing the export into an empty store
/// gives, for each row of the export and in its order, a credential that a
/// reader is shown with the url, the username and the password that the
/// exported credential was shown with, and with its title and its note where
/// it had them; a title or a note that it lacked comes back as the empty
/// text. Ids and creation times are the ones drawn for the import.
///
/// This holds where the urls of the exported credentials differ from one
/// another: rows of one url are merged into one credential.
pub proof fn lemma_export_then_import(
    rows: Seq<CredentialView>,
    secret: Option<Seq<char>>,
    order: Seq<usize>,
    seeds: Seq<SeedView>,
)
    requires
        is_ranking(created_times(rows), every(rows.len()), order),
        forall|i: int, j: int|
            0 <= i < j < rows.len() ==> (#[trigger] rows[i]).url != (#[trigger] rows[j]).url,
        order.len() <= seeds.len(),
    ensures
        replayed(
            Seq::<CredentialView>::empty(),
            credential_header(),
            credential_rows(rows, secret, order),
            seeds,
            order.len(),
        ) is Ok,
        ({
            let out = replayed(
                Seq::<CredentialView>::empty(),
                credential_header(),
                credential_rows(rows, secret, order),
                seeds,
                order.len(),
            )->Ok_0;
            &&& out.len() == order.len()
            &&& forall|k: int|
                0 <= k < order.len() ==> {
                    let source = shown(secret, rows[order[k] as int]);
                    let back = #[trigger] out[k];
                    &&& back.url == source.url
                    &&& back.username == source.username
                    &&& back.password == source.password
                    &&& source.title is Some ==> back.title == source.title
                    &&& source.note is Some ==> back.note == source.note
                    &&& source.title is None ==> back.title == Some(Seq::<char>::empty())
                    &&& source.note is None ==> back.note == Some(Seq::<char>::empty())
                    &&& back.id == seeds[k].id
                    &&& back.created_at == seeds[k].created_at
                }
        }),
{
    lemma_replay_of_export(rows, secret, order, seeds, order.len());
}

} // verus!
