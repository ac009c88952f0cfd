//! End-to-end encryption keys (`/_matrix/client/v3/keys/*`).
//!
//! Nothing is encrypted here: these handlers keep the keys that the client uploads and hand them
//! back, so that the client keeps working.

use vstd::prelude::*;
use vstd::string::StringExecFns;

use crate::json::{
    first_member_is_read, get_after_without, member_position_is, pointer_steps,
    put_members_are_read, set_is_read_back, steps_of, with_members, Json, JsonModel,
};

verus! {

/// The one device that the user has.
pub const DEVICE_ID: &'static str = "DEVICEID";

/// The keys that the client has uploaded, if it has.
#[derive(Debug, PartialEq, Eq)]
pub struct KeyStore {
    pub keys: Option<Json>,
}

/// A pointer to the signatures that a user made of their own device.
pub open spec fn signatures_pointer(user_id: Seq<char>) -> Seq<char> {
    "/"@ + user_id + "/DEVICEID/signatures/"@ + user_id
}

/// A pointer to the same signatures among the stored keys.
pub open spec fn stored_pointer(user_id: Seq<char>) -> Seq<char> {
    "/device_keys/"@ + user_id + "/DEVICEID/signatures/"@ + user_id
}

/// The keys that are stored when a user uploads some for the first time.
pub open spec fn first_keys(user_id: Seq<char>, device_keys: JsonModel) -> JsonModel {
    JsonModel::Object(
        seq![
            (
                "device_keys"@,
                JsonModel::Object(
                    seq![(user_id, JsonModel::Object(seq![("DEVICEID"@, device_keys)]))],
                ),
            ),
        ],
    )
}

/// The keys that are stored after an upload. Only the first one that holds device keys counts.
pub open spec fn keys_after_upload(
    keys: Option<JsonModel>,
    user_id: Seq<char>,
    body: JsonModel,
) -> Option<JsonModel> {
    match (keys, body.get("device_keys"@)) {
        (None, Some(device_keys)) => Some(first_keys(user_id, device_keys)),
        _ => keys,
    }
}

/// The keys that are stored after cross-signing keys were uploaded: the members of the body, but
/// for `auth`, are put among them. Without stored keys nothing is.
pub open spec fn keys_after_signing_upload(
    keys: Option<JsonModel>,
    body: JsonModel,
) -> Option<JsonModel> {
    match (keys, body.without("auth"@)) {
        (Some(JsonModel::Object(members)), JsonModel::Object(more)) => Some(
            JsonModel::Object(with_members(members, more)),
        ),
        _ => keys,
    }
}

/// The keys that are stored after signatures were uploaded: those that the user made of their own
/// device are put among the stored ones, if there are any.
pub open spec fn keys_after_signatures(
    keys: Option<JsonModel>,
    user_id: Seq<char>,
    body: JsonModel,
) -> Option<JsonModel> {
    let steps = pointer_steps(stored_pointer(user_id));
    match (keys, body.at(pointer_steps(signatures_pointer(user_id)), 0)) {
        (Some(stored), Some(JsonModel::Object(more))) => match stored.at(steps, 0) {
            Some(JsonModel::Object(members)) => Some(
                stored.set_at(steps, 0, JsonModel::Object(with_members(members, more))),
            ),
            _ => keys,
        },
        _ => keys,
    }
}

impl KeyStore {
    /// The stored keys.
    pub open spec fn model(self) -> Option<JsonModel> {
        match self.keys {
            Some(keys) => Some(keys.model()),
            None => None,
        }
    }

    /// A store that holds no keys yet.
    pub fn new() -> (store: KeyStore)
        ensures
            store.model() is None,
    {
        KeyStore { keys: None }
    }

    /// The answer to a query: the stored keys, or that there are none.
    pub fn keys_query(&self) -> (answer: Json)
        ensures
            answer.model() == (match self.model() {
                Some(keys) => keys,
                None => JsonModel::Object(seq![("device_keys"@, JsonModel::Object(Seq::empty()))]),
            }),
    {
        match &self.keys {
            Some(keys) => keys.copy(),
            None => Json::single("device_keys", Json::empty_object()),
        }
    }

    /// Keep uploaded device keys, and say that no more one-time keys are wanted.
    pub fn keys_upload(&mut self, user_id: &str, body: &Json) -> (answer: Json)
        ensures
            final(self).model() == keys_after_upload(old(self).model(), user_id@, body.model()),
            answer.model() == JsonModel::Object(
                seq![
                    (
                        "one_time_key_counts"@,
                        JsonModel::Object(seq![("signed_curve25519"@, JsonModel::Number("100"@))]),
                    ),
                ],
            ),
    {
        if self.keys.is_none() {
            if let Some(device_keys) = body.get("device_keys") {
                let device = Json::single(DEVICE_ID, device_keys.copy());
                let keys = Json::single("device_keys", Json::single(user_id, device));
                self.keys = Some(keys);
            }
        }
        Json::single("one_time_key_counts", Json::single("signed_curve25519", Json::number("100")))
    }

    /// Put uploaded cross-signing keys among the stored ones.
    pub fn device_signing_upload(&mut self, body: Json) -> (answer: Json)
        ensures
            final(self).model() == keys_after_signing_upload(old(self).model(), body.model()),
            answer.model() == JsonModel::Object(Seq::empty()),
    {
        let body = body.without("auth");
        if let Json::Object(more) = &body {
            proof {
                Json::model_of_object(*more);
            }
            if let Some(keys) = self.keys.take() {
                self.keys = Some(keys.extend(more));
            }
        }
        Json::empty_object()
    }

    /// Put uploaded signatures among the stored ones.
    pub fn signatures_upload(&mut self, user_id: &str, body: &Json) -> (answer: Json)
        ensures
            final(self).model() == keys_after_signatures(old(self).model(), user_id@, body.model()),
            answer.model() == JsonModel::Object(Seq::empty()),
    {
        let from = "/".to_owned().concat(user_id).concat("/DEVICEID/signatures/").concat(
            user_id,
        );
        let to = "/device_keys/".to_owned().concat(user_id).concat(
            "/DEVICEID/signatures/",
        ).concat(user_id);
        let steps = steps_of(to.as_str());
        if let Some(Json::Object(more)) = body.at(&steps_of(from.as_str())) {
            proof {
                Json::model_of_object(*more);
            }
            if let Some(keys) = self.keys.take() {
                let merged = match keys.at(&steps) {
                    Some(held) => match held {
                        Json::Object(_) => Some(held.copy().extend(more)),
                        _ => None,
                    },
                    None => None,
                };
                self.keys = match merged {
                    Some(merged) => Some(keys.set_at(&steps, 0, merged)),
                    None => Some(keys),
                };
            }
        }
        Json::empty_object()
    }
}

/// Keys are taken once: after an upload of device keys, another changes nothing.
pub proof fn first_upload_wins(
    keys: Option<JsonModel>,
    user_id: Seq<char>,
    first: JsonModel,
    second: JsonModel,
)
    requires
        first.get("device_keys"@) is Some,
    ensures
        keys_after_upload(keys_after_upload(keys, user_id, first), user_id, second)
            == keys_after_upload(keys, user_id, first),
{
}

/// What was uploaded first is what is stored, under the user and their device.
pub proof fn uploaded_is_stored(user_id: Seq<char>, body: JsonModel)
    requires
        body.get("device_keys"@) is Some,
    ensures
        keys_after_upload(None, user_id, body) matches Some(keys) && keys.get("device_keys"@)
            matches Some(users) && users.get(user_id) matches Some(devices) && devices.get(
            "DEVICEID"@,
        ) == body.get("device_keys"@),
{
}

/// Signatures that reach stored ones are found where those were, put among them.
pub proof fn signatures_are_merged(
    stored: JsonModel,
    user_id: Seq<char>,
    body: JsonModel,
    members: Seq<(Seq<char>, JsonModel)>,
    more: Seq<(Seq<char>, JsonModel)>,
)
    requires
        body.at(pointer_steps(signatures_pointer(user_id)), 0) == Some(JsonModel::Object(more)),
        stored.at(pointer_steps(stored_pointer(user_id)), 0) == Some(JsonModel::Object(members)),
    ensures
        keys_after_signatures(Some(stored), user_id, body) matches Some(keys) && keys.at(
            pointer_steps(stored_pointer(user_id)),
            0,
        ) == Some(JsonModel::Object(with_members(members, more))),
{
    set_is_read_back(
        stored,
        pointer_steps(stored_pointer(user_id)),
        0,
        JsonModel::Object(with_members(members, more)),
    );
}

/// Each uploaded cross-signing key is stored under its name, in the place of an earlier one; what was
/// stored under other names stays; how the upload was authorised is not kept.
pub proof fn signing_keys_are_stored(
    members: Seq<(Seq<char>, JsonModel)>,
    more: Seq<(Seq<char>, JsonModel)>,
    at: int,
    key: Seq<char>,
)
    requires
        -1 <= at < more.len(),
        at >= 0 ==> more[at].0 == key,
        forall|i: int| at < i < more.len() ==> (#[trigger] more[i]).0 != key,
        forall|i: int| 0 <= i < more.len() ==> (#[trigger] more[i]).0 != "auth"@,
    ensures
        keys_after_signing_upload(
            Some(JsonModel::Object(members)),
            JsonModel::Object(more),
        ) matches Some(keys) && keys.get(key) == if at >= 0 {
            Some(more[at].1)
        } else {
            JsonModel::Object(members).get(key)
        },
{
    get_after_without(JsonModel::Object(more), "auth"@, key);
    first_member_is_read(more, "auth"@, more.len() as int);
    put_members_are_read(members, more, at, key);
}

/// The authorisation of an upload of cross-signing keys makes no difference to what is stored.
pub proof fn authorisation_is_not_stored(
    keys: Option<JsonModel>,
    more: Seq<(Seq<char>, JsonModel)>,
    auth: JsonModel,
)
    requires
        forall|i: int| 0 <= i < more.len() ==> (#[trigger] more[i]).0 != "auth"@,
    ensures
        keys_after_signing_upload(keys, JsonModel::Object(more.push(("auth"@, auth))))
            == keys_after_signing_upload(keys, JsonModel::Object(more)),
{
    let body = more.push(("auth"@, auth));
    first_member_is_read(more, "auth"@, more.len() as int);
    member_position_is(body, "auth"@, 0, more.len() as int);
    assert(body.remove(more.len() as int) =~= more);
    get_after_without(JsonModel::Object(more), "auth"@, "auth"@);
}

/// Without device keys, neither cross-signing keys nor signatures are stored.
pub proof fn device_keys_come_first(user_id: Seq<char>, body: JsonModel)
    ensures
        keys_after_signing_upload(None, body) is None,
        keys_after_signatures(None, user_id, body) is None,
        body.get("device_keys"@) is None ==> keys_after_upload(None, user_id, body) is None,
{
}

/// Each uploaded signature is found under its key where the stored signatures are, and the stored
/// ones that no uploaded one replaces stay there.
pub proof fn each_signature_is_stored(
    stored: JsonModel,
    user_id: Seq<char>,
    body: JsonModel,
    members: Seq<(Seq<char>, JsonModel)>,
    more: Seq<(Seq<char>, JsonModel)>,
    at: int,
    key: Seq<char>,
)
    requires
        body.at(pointer_steps("/"@ + user_id + "/DEVICEID/signatures/"@ + user_id), 0) == Some(
            JsonModel::Object(more),
        ),
        stored.at(
            pointer_steps("/device_keys/"@ + user_id + "/DEVICEID/signatures/"@ + user_id),
            0,
        ) == Some(JsonModel::Object(members)),
        -1 <= at < more.len(),
        at >= 0 ==> more[at].0 == key,
        forall|i: int| at < i < more.len() ==> (#[trigger] more[i]).0 != key,
    ensures
        keys_after_signatures(Some(stored), user_id, body) matches Some(keys) && keys.at(
            pointer_steps("/device_keys/"@ + user_id + "/DEVICEID/signatures/"@ + user_id),
            0,
        ) matches Some(signatures) && signatures.get(key) == if at >= 0 {
            Some(more[at].1)
        } else {
            JsonModel::Object(members).get(key)
        },
{
    signatures_are_merged(stored, user_id, body, members, more);
    put_members_are_read(members, more, at, key);
}

/// A query answers what is stored; without stored keys it answers that there are none.
pub proof fn query_answers_what_is_stored(store: KeyStore, answer: Json, user: Seq<char>)
    requires
        call_ensures(KeyStore::keys_query, (&store,), answer),
    ensures
        store.keys matches Some(keys) ==> answer.model() == keys.model(),
        store.keys is None ==> {
            &&& answer.model().get("device_keys"@) is Some
            &&& answer.model().get("device_keys"@)->0.get(user) is None
        },
{
    if store.keys is None {
        first_member_is_read(answer.model().members(), "device_keys"@, 0);
        first_member_is_read(Seq::empty(), user, 0);
    }
}

/// Uploaded device keys are kept under the user and their device, unless some are kept already; the
/// answer is that there are one-time keys enough.
pub proof fn upload_is_kept(store: &mut KeyStore, user_id: &str, body: Json, answer: Json)
    requires
        call_ensures(KeyStore::keys_upload, (store, user_id, &body), answer),
    ensures
        old(store).keys is Some ==> final(store).model() == old(store).model(),
        old(store).keys is None && body.model().get("device_keys"@) is None
            ==> final(store).model() is None,
        old(store).keys is None && body.model().get("device_keys"@) is Some ==> (
        final(store).model() matches Some(keys) && keys.get("device_keys"@) matches Some(users) && users.get(
            user_id@,
        ) matches Some(devices) && devices.get("DEVICEID"@) == body.model().get("device_keys"@)),
        answer.model().get("one_time_key_counts"@) matches Some(counts) && counts.get(
            "signed_curve25519"@,
        ) == Some(JsonModel::Number("100"@)),
{
    if old(store).keys is None && body.model().get("device_keys"@) is Some {
        uploaded_is_stored(user_id@, body.model());
    }
    first_member_is_read(answer.model().members(), "one_time_key_counts"@, 0);
    let counts = answer.model().members()[0].1;
    first_member_is_read(counts.members(), "signed_curve25519"@, 0);
}

/// Uploaded cross-signing keys are kept beside the device keys, each under its name; uploaded
/// signatures go where the stored ones are. Both are answered with nothing.
pub proof fn later_uploads_are_kept(
    signed: &mut KeyStore,
    attested: &mut KeyStore,
    user_id: &str,
    members: Seq<(Seq<char>, JsonModel)>,
    signing: Json,
    signatures: Json,
    first: Json,
    second: Json,
    at: int,
    key: Seq<char>,
)
    requires
        call_ensures(KeyStore::device_signing_upload, (signed, signing), first),
        call_ensures(KeyStore::signatures_upload, (attested, user_id, &signatures), second),
        old(signed).model() == Some(JsonModel::Object(members)),
        signing.model() is Object,
        -1 <= at < signing.model().members().len(),
        at >= 0 ==> signing.model().members()[at].0 == key,
        forall|i: int|
            at < i < signing.model().members().len() ==> (
            #[trigger] signing.model().members()[i]).0 != key,
        forall|i: int|
            0 <= i < signing.model().members().len() ==> (
            #[trigger] signing.model().members()[i]).0 != "auth"@,
    ensures
        final(signed).model() matches Some(keys) && keys.get(key) == if at >= 0 {
            Some(signing.model().members()[at].1)
        } else {
            JsonModel::Object(members).get(key)
        },
        final(attested).model() == keys_after_signatures(
            old(attested).model(),
            user_id@,
            signatures.model(),
        ),
        first.model() == JsonModel::Object(Seq::empty()),
        second.model() == JsonModel::Object(Seq::empty()),
{
    signing_keys_are_stored(members, signing.model().members(), at, key);
}

} // verus!
