//! The command layer: every operation the front-end can invoke.
//!
//! Commands work on an exclusively borrowed session slot holding at
//! most one decrypted session; the caller owns the slot, serializes
//! access to it, and performs the file reads and writes.  A mutating
//! command hands back the complete new file image, to be persisted
//! before the result is reported.

use vstd::multiset::Multiset;
use vstd::prelude::*;
use vstd::string::StringExecFns;
use vstd::utf8::encode_utf8;

use crate::encoding::{lex_leq, str_eq, xor_bytes};
use crate::envelope::{decrypt_blob, encrypt_blob, gcm_seal};
use crate::error::Error;
use crate::kdf::{derive_master_key, master_key_of};
use crate::mem::{
    Keeper, KeeperV, PrivacyV, PrivacySerialize, PrivacySerializeV, UserSession, contains_key,
    value_of,
};
use crate::rng::{is_uuid_v4_string, new_credential_id, random_bytes, random_password};
use crate::serial::{deserialize_vault, keeper_bounded, serialize_vault, vault_dec, vault_enc};
use crate::wrap::{keystream_of, unwrap_data_key, wrap_data_key};

verus! {

/// A session in its steady state: a well-formed, bounded vault with a
/// non-empty owner, persisted under `<username>.pwdb`.
pub open spec fn session_wf(s: UserSession) -> bool {
    &&& s.keeper@.wf()
    &&& keeper_bounded(s.keeper@)
    &&& s.keeper@.username.len() > 0
    &&& s.file@ == s.keeper@.username + ".pwdb"@
}

/// The session's key material matches the given passphrase: the stored
/// wrapped key is the data key XORed with the keystream of the master
/// key that the passphrase and the vault's username derive.
pub open spec fn session_authentic(s: UserSession, password: Seq<char>) -> bool {
    s.encrypted_key@ == xor_bytes(
        s.key@,
        keystream_of(
            master_key_of(encode_utf8(password), encode_utf8(s.keeper@.username)),
            s.nonce@,
        ),
    )
}

/// The fixed-offset file layout around a session's envelope blob: the
/// 16-byte wrap nonce, the 32-byte wrapped key, then the blob.
pub open spec fn image_of(s: UserSession, image: Seq<u8>) -> bool {
    &&& image.len() >= 60
    &&& image.subrange(0, 16) == s.nonce@
    &&& image.subrange(16, 48) == s.encrypted_key@
    &&& ({
        let blob = image.skip(48);
        blob.skip(12) == gcm_seal(s.key@, blob.take(12), vault_enc(s.keeper@))
    })
}

/// Computes the bytes that persist a session: the wrap nonce, the
/// wrapped data key, and the vault serialized and sealed under the data
/// key.  The caller replaces the whole vault file with them.
pub fn disk_dump(session: &UserSession) -> (r: Result<Vec<u8>, Error>)
    ensures
        match r {
            Ok(image) => image_of(*session, image@),
            Err(e) => e == Error::Unexpected,
        },
        keeper_bounded(session.keeper@),
{
    let vault_bytes = serialize_vault(&session.keeper);
    let blob = match encrypt_blob(vault_bytes.as_slice(), &session.key) {
        None => {
            return Err(Error::Unexpected);
        },
        Some(b) => b,
    };
    let mut out: Vec<u8> = Vec::new();
    out.extend_from_slice(session.nonce.as_slice());
    out.extend_from_slice(session.encrypted_key.as_slice());
    out.extend_from_slice(blob.as_slice());
    proof {
        assert(out@.subrange(0, 16) =~= session.nonce@);
        assert(out@.subrange(16, 48) =~= session.encrypted_key@);
        assert(out@.skip(48) =~= blob@);
    }
    Ok(out)
}

/// The deterministic gate of account creation: empty inputs, an
/// occupied slot, or an existing vault file are rejected before any
/// cryptography runs.
pub open spec fn create_account_gate(
    old_slot: Option<UserSession>,
    username: Seq<char>,
    password: Seq<char>,
    file_exists: bool,
) -> Option<Error> {
    if username.len() == 0 || password.len() == 0 {
        Some(Error::InvalidKeeper)
    } else if old_slot is Some {
        Some(Error::Unexpected)
    } else if file_exists {
        Some(Error::UsernameTaken)
    } else {
        None
    }
}

/// Opens a fresh account: derives the master key, draws and wraps a
/// fresh data key, installs a session over an empty vault, and returns
/// the file image to persist.  The caller reports whether the vault
/// file already exists, and writes the returned image before reporting
/// success.
pub fn create_account(
    session: &mut Option<UserSession>,
    username: String,
    password: String,
    file_exists: bool,
) -> (r: Result<Vec<u8>, Error>)
    ensures
        ({
            let gate = create_account_gate(*old(session), username@, password@, file_exists);
            &&& gate is Some ==> r == Err::<Vec<u8>, Error>(gate->0) && *final(session) == *old(
                session,
            )
            &&& gate is None ==> (r is Ok || r == Err::<Vec<u8>, Error>(Error::Unexpected))
        }),
        r is Ok ==> ({
            let s = final(session)->0;
            &&& *final(session) is Some
            &&& session_wf(s)
            &&& session_authentic(s, password@)
            &&& s.keeper@.username == username@
            &&& s.keeper@.heap.len() == 0
            &&& image_of(s, r->Ok_0@)
        }),
        r is Err ==> (*final(session) == *old(session) || ({
            let s = final(session)->0;
            &&& *final(session) is Some
            &&& session_wf(s)
            &&& session_authentic(s, password@)
            &&& s.keeper@.username == username@
            &&& s.keeper@.heap.len() == 0
        })),
{
    if username.as_str().is_empty() || password.as_str().is_empty() {
        return Err(Error::InvalidKeeper);
    }
    if session.is_some() {
        return Err(Error::Unexpected);
    }
    if file_exists {
        return Err(Error::UsernameTaken);
    }
    let master_key = derive_master_key(password.as_str().as_bytes(), username.as_str().as_bytes());
    let key = match random_bytes::<32>() {
        None => {
            return Err(Error::Unexpected);
        },
        Some(k) => k,
    };
    let (encrypted_key, nonce) = match wrap_data_key(&master_key, &key) {
        None => {
            return Err(Error::Unexpected);
        },
        Some(p) => p,
    };
    let file = username.clone().concat(".pwdb");
    let keeper = Keeper::create(username);
    let s = UserSession { file, nonce, encrypted_key, key, keeper };
    let dump = disk_dump(&s);
    *session = Some(s);
    dump
}

/// The deterministic gate of login: empty inputs, an occupied slot, a
/// missing vault file, or a file below the minimum 49 bytes are
/// rejected before any cryptography runs.
pub open spec fn login_gate(
    old_slot: Option<UserSession>,
    username: Seq<char>,
    password: Seq<char>,
    file_contents: Option<Vec<u8>>,
) -> Option<Error> {
    if username.len() == 0 || password.len() == 0 {
        Some(Error::InvalidKeeper)
    } else if old_slot is Some {
        Some(Error::Unexpected)
    } else if file_contents is None {
        Some(Error::InvalidKeeper)
    } else if file_contents->0@.len() < 49 {
        Some(Error::InvalidReader)
    } else {
        None
    }
}

/// The file bytes `f` open under this username and passphrase to the
/// vault `kv`, through the data key `dk` and the envelope nonce `bn`:
/// the stored wrapped key wraps `dk` under the derived master key, and
/// the stored blob is the canonical image of `kv` sealed under `dk`.
pub open spec fn login_opens(
    f: Seq<u8>,
    username: Seq<char>,
    password: Seq<char>,
    dk: Seq<u8>,
    bn: Seq<u8>,
    kv: KeeperV,
) -> bool {
    let mk = master_key_of(encode_utf8(password), encode_utf8(username));
    &&& f.len() >= 49
    &&& kv.wf()
    &&& keeper_bounded(kv)
    &&& bn.len() == 12
    &&& f.subrange(16, 48) == xor_bytes(dk, keystream_of(mk, f.subrange(0, 16)))
    &&& f.skip(48) == bn + gcm_seal(dk, bn, vault_enc(kv))
}

/// Opens an existing account: slices the file at its fixed offsets,
/// derives the master key, unwraps the data key, decrypts and
/// deserializes the vault, checks the stored username, and installs the
/// session.  The caller reads the vault file and passes its bytes, or
/// nothing when the file does not exist.
pub fn login(
    session: &mut Option<UserSession>,
    username: String,
    password: String,
    file_contents: Option<Vec<u8>>,
) -> (r: Result<(), Error>)
    ensures
        ({
            let gate = login_gate(*old(session), username@, password@, file_contents);
            gate is Some ==> r == Err::<(), Error>(gate->0)
        }),
        r is Err ==> *final(session) == *old(session),
        r is Err ==> (r->Err_0 == Error::InvalidKeeper || r->Err_0 == Error::InvalidReader
            || r->Err_0 == Error::Unexpected),
        r is Ok ==> ({
            let fb = file_contents->0@;
            let s = final(session)->0;
            &&& login_gate(*old(session), username@, password@, file_contents) is None
            &&& *final(session) is Some
            &&& session_wf(s)
            &&& session_authentic(s, password@)
            &&& s.keeper@.username == username@
            &&& s.nonce@ == fb.subrange(0, 16)
            &&& s.encrypted_key@ == fb.subrange(16, 48)
            &&& login_opens(fb, username@, password@, s.key@, fb.skip(48).take(12), s.keeper@)
        }),
        login_gate(*old(session), username@, password@, file_contents) is None ==> forall|
            dk: Seq<u8>,
            bn: Seq<u8>,
            kv: KeeperV,
        |
            #[trigger] login_opens(file_contents->0@, username@, password@, dk, bn, kv) ==> if kv.username
                == username@ {
                r is Ok && final(session)->0.keeper@ == kv && final(session)->0.key@ == dk
            } else {
                r == Err::<(), Error>(Error::InvalidReader)
            },
{
    if username.as_str().is_empty() || password.as_str().is_empty() {
        return Err(Error::InvalidKeeper);
    }
    if session.is_some() {
        return Err(Error::Unexpected);
    }
    let file = match file_contents {
        None => {
            return Err(Error::InvalidKeeper);
        },
        Some(f) => f,
    };
    if file.len() < 49 {
        return Err(Error::InvalidReader);
    }
    let ghost fb = file@;
    let nonce = crate::encoding::to_array16(vstd::slice::slice_subrange(file.as_slice(), 0, 16));
    let encrypted_key = crate::encoding::to_array32(
        vstd::slice::slice_subrange(file.as_slice(), 16, 48),
    );
    let master_key = derive_master_key(password.as_str().as_bytes(), username.as_str().as_bytes());
    let key = unwrap_data_key(&master_key, &encrypted_key, &nonce);
    let blob = vstd::slice::slice_subrange(file.as_slice(), 48, file.len());
    proof {
        assert(blob@ =~= fb.skip(48));
        assert(nonce@ =~= fb.subrange(0, 16));
        assert(encrypted_key@ =~= fb.subrange(16, 48));
    }
    let ghost mk = master_key_of(encode_utf8(password@), encode_utf8(username@));
    let plain = match decrypt_blob(blob, &key) {
        None => {
            proof {
                lemma_no_opener_on_seal_failure(fb, username@, password@, key@);
            }
            return Err(Error::InvalidKeeper);
        },
        Some(p) => p,
    };
    let keeper = match deserialize_vault(plain.as_slice()) {
        None => {
            proof {
                assert forall|dk: Seq<u8>, bn: Seq<u8>, kv: KeeperV| !#[trigger] login_opens(
                    fb,
                    username@,
                    password@,
                    dk,
                    bn,
                    kv,
                ) by {
                    if login_opens(fb, username@, password@, dk, bn, kv) {
                        lemma_opener_is_computed_key(fb, username@, password@, dk, bn, kv, key@);
                        assert(fb.skip(48).skip(12) =~= gcm_seal(key@, fb.skip(48).take(12), vault_enc(kv)));
                        assert(plain@ == vault_enc(kv));
                        crate::serial::lemma_vault_roundtrip(kv);
                    }
                }
            }
            return Err(Error::InvalidKeeper);
        },
        Some(k) => k,
    };
    let ghost decoded = keeper@;
    proof {
        crate::serial::lemma_vault_canon(plain@);
    }
    if !str_eq(keeper.username(), username.as_str()) {
        proof {
            lemma_any_opener_matches(fb, username@, password@, key@, plain@, decoded);
        }
        return Err(Error::InvalidReader);
    }
    let file_name = username.clone().concat(".pwdb");
    let s = UserSession { file: file_name, nonce, encrypted_key, key, keeper };
    proof {
        crate::encoding::lemma_xor_involution(encrypted_key@, keystream_of(mk, nonce@));
        crate::encoding::lemma_xor_involution(s.key@, keystream_of(mk, nonce@));
        assert(fb.skip(48).take(12).len() == 12);
        assert(fb.skip(48).take(12) + fb.skip(48).skip(12) =~= fb.skip(48));
        lemma_any_opener_matches(fb, username@, password@, s.key@, plain@, decoded);
    }
    *session = Some(s);
    Ok(())
}

/// When decryption of the stored blob fails under the computed data
/// key, no data key, nonce and vault can open the file at all.
proof fn lemma_no_opener_on_seal_failure(
    fb: Seq<u8>,
    username: Seq<char>,
    password: Seq<char>,
    computed_key: Seq<u8>,
)
    requires
        fb.len() >= 49,
        computed_key == xor_bytes(
            fb.subrange(16, 48),
            keystream_of(master_key_of(encode_utf8(password), encode_utf8(username)), fb.subrange(0, 16)),
        ),
        forall|pt: Seq<u8>|
            !(fb.skip(48).len() >= 12 && fb.skip(48).skip(12) == gcm_seal(
                computed_key,
                fb.skip(48).take(12),
                pt,
            )),
    ensures
        forall|dk: Seq<u8>, bn: Seq<u8>, kv: KeeperV|
            !#[trigger] login_opens(fb, username, password, dk, bn, kv),
{
    assert forall|dk: Seq<u8>, bn: Seq<u8>, kv: KeeperV| !#[trigger] login_opens(
        fb,
        username,
        password,
        dk,
        bn,
        kv,
    ) by {
        if login_opens(fb, username, password, dk, bn, kv) {
            lemma_opener_is_computed_key(fb, username, password, dk, bn, kv, computed_key);
            assert(fb.skip(48).skip(12) =~= gcm_seal(computed_key, fb.skip(48).take(12), vault_enc(kv)));
            assert(fb.skip(48).len() >= 12);
        }
    }
}

/// Any data key that opens the file equals the one computed by
/// unwrapping the stored wrapped key, and the opening nonce is the
/// blob's first 12 bytes.
proof fn lemma_opener_is_computed_key(
    fb: Seq<u8>,
    username: Seq<char>,
    password: Seq<char>,
    dk: Seq<u8>,
    bn: Seq<u8>,
    kv: KeeperV,
    computed_key: Seq<u8>,
)
    requires
        login_opens(fb, username, password, dk, bn, kv),
        computed_key == xor_bytes(
            fb.subrange(16, 48),
            keystream_of(master_key_of(encode_utf8(password), encode_utf8(username)), fb.subrange(0, 16)),
        ),
    ensures
        dk == computed_key,
        bn == fb.skip(48).take(12),
        fb.skip(48).skip(12) == gcm_seal(dk, bn, vault_enc(kv)),
{
    let mk = master_key_of(encode_utf8(password), encode_utf8(username));
    crate::encoding::lemma_xor_involution(dk, keystream_of(mk, fb.subrange(0, 16)));
    assert(fb.skip(48).take(12) =~= bn);
    assert(fb.skip(48).skip(12) =~= gcm_seal(dk, bn, vault_enc(kv)));
}

/// Whatever opener the file has carries exactly the vault that was
/// decrypted and decoded under the computed data key.
proof fn lemma_any_opener_matches(
    fb: Seq<u8>,
    username: Seq<char>,
    password: Seq<char>,
    computed_key: Seq<u8>,
    plain: Seq<u8>,
    decoded: KeeperV,
)
    requires
        fb.len() >= 49,
        computed_key == xor_bytes(
            fb.subrange(16, 48),
            keystream_of(master_key_of(encode_utf8(password), encode_utf8(username)), fb.subrange(0, 16)),
        ),
        fb.skip(48).len() >= 12,
        fb.skip(48).skip(12) == gcm_seal(computed_key, fb.skip(48).take(12), plain),
        forall|pt: Seq<u8>|
            fb.skip(48).len() >= 12 && fb.skip(48).skip(12) == gcm_seal(
                computed_key,
                fb.skip(48).take(12),
                pt,
            ) ==> pt == plain,
        vault_dec(plain) == Some(decoded),
    ensures
        forall|dk: Seq<u8>, bn: Seq<u8>, kv: KeeperV|
            #[trigger] login_opens(fb, username, password, dk, bn, kv) ==> kv == decoded && dk
                == computed_key,
{
    assert forall|dk: Seq<u8>, bn: Seq<u8>, kv: KeeperV| #[trigger] login_opens(
        fb,
        username,
        password,
        dk,
        bn,
        kv,
    ) implies kv == decoded && dk == computed_key by {
        lemma_opener_is_computed_key(fb, username, password, dk, bn, kv, computed_key);
        assert(vault_enc(kv) == plain);
        crate::serial::lemma_vault_roundtrip(kv);
    }
}

/// Durability: any file image that [`disk_dump`] produced for an
/// authentic session opens, under [`login`]'s contract, back to exactly
/// that session's vault.  So after a successful mutation is persisted,
/// a fresh login with the same username and passphrase recovers the
/// post-mutation credential map.
pub proof fn lemma_durability(s: UserSession, password: Seq<char>, image: Seq<u8>)
    requires
        session_wf(s),
        session_authentic(s, password),
        image_of(s, image),
    ensures
        image.len() >= 49,
        login_opens(
            image,
            s.keeper@.username,
            password,
            s.key@,
            image.skip(48).take(12),
            s.keeper@,
        ),
{
    let blob = image.skip(48);
    let bn = blob.take(12);
    assert(blob.len() >= 12);
    assert(bn.len() == 12);
    assert(bn + blob.skip(12) =~= blob);
    let mk = master_key_of(encode_utf8(password), encode_utf8(s.keeper@.username));
    assert(image.subrange(0, 16) == s.nonce@);
    assert(image.subrange(16, 48) == s.encrypted_key@);
    assert(image.subrange(16, 48) == xor_bytes(s.key@, keystream_of(mk, image.subrange(0, 16))));
}

/// Drops the session, if any; always succeeds.
pub fn logout(session: &mut Option<UserSession>) -> (r: Result<(), Error>)
    ensures
        *final(session) is None,
        r is Ok,
{
    *session = None;
    Ok(())
}

/// Reports whether a session is installed.
pub fn can_user_access(session: &Option<UserSession>) -> (r: Result<bool, Error>)
    ensures
        r is Ok && r->Ok_0 == (session is Some),
{
    Ok(session.is_some())
}

/// The session's identity and key material are untouched: only the
/// credential map may differ.
pub open spec fn same_key_material(a: UserSession, b: UserSession) -> bool {
    &&& b.file@ == a.file@
    &&& b.nonce@ == a.nonce@
    &&& b.encrypted_key@ == a.encrypted_key@
    &&& b.key@ == a.key@
    &&& b.keeper@.username == a.keeper@.username
}

/// The new vault is the old one with `v` filed under `id`: the id is
/// present and maps to `v`, every other id keeps its presence and its
/// credential, and a fresh id is appended.
pub open spec fn privacy_added(o: KeeperV, n: KeeperV, id: Seq<char>, v: PrivacyV) -> bool {
    &&& n.username == o.username
    &&& contains_key(n.heap, id)
    &&& o.wf() ==> n.wf()
    &&& o.wf() ==> value_of(n.heap, id) == v
    &&& !contains_key(o.heap, id) ==> n.heap == o.heap.push((id, v))
    &&& forall|x: Seq<char>| x != id ==> #[trigger] contains_key(n.heap, x) == contains_key(o.heap, x)
    &&& o.wf() ==> forall|x: Seq<char>|
        x != id && contains_key(o.heap, x) ==> #[trigger] value_of(n.heap, x) == value_of(o.heap, x)
}

/// The new vault is the old one with the credential under `id`
/// overwritten by `v`; an absent id leaves the vault untouched.
pub open spec fn privacy_updated(o: KeeperV, n: KeeperV, id: Seq<char>, v: PrivacyV) -> bool {
    &&& n.username == o.username
    &&& o.wf() ==> n.wf()
    &&& !contains_key(o.heap, id) ==> n == o
    &&& o.wf() && contains_key(o.heap, id) ==> contains_key(n.heap, id) && value_of(n.heap, id) == v
    &&& forall|x: Seq<char>| x != id ==> #[trigger] contains_key(n.heap, x) == contains_key(o.heap, x)
    &&& o.wf() ==> forall|x: Seq<char>|
        x != id && contains_key(o.heap, x) ==> #[trigger] value_of(n.heap, x) == value_of(o.heap, x)
}

/// The new vault is the old one with the credential under `id` gone;
/// every other id keeps its presence and its credential.
pub open spec fn privacy_removed(o: KeeperV, n: KeeperV, id: Seq<char>) -> bool {
    &&& n.username == o.username
    &&& o.wf() ==> n.wf()
    &&& o.wf() ==> !contains_key(n.heap, id)
    &&& o.wf() ==> forall|x: Seq<char>|
        x != id ==> #[trigger] contains_key(n.heap, x) == contains_key(o.heap, x)
    &&& o.wf() ==> forall|x: Seq<char>|
        x != id && contains_key(o.heap, x) ==> #[trigger] value_of(n.heap, x) == value_of(o.heap, x)
}

/// Files a credential under a fresh random id, persists, and returns
/// the new id with the file image to write.
pub fn add_privacy(
    session: &mut Option<UserSession>,
    url: String,
    username: String,
    password: String,
) -> (r: Result<(String, Vec<u8>), Error>)
    ensures
        ({
            let rejected = url@.len() == 0 || username@.len() == 0 || password@.len() == 0
                || *old(session) is None;
            &&& rejected ==> r == Err::<(String, Vec<u8>), Error>(Error::InvalidReader)
                && *final(session) == *old(session)
            &&& !rejected ==> {
                &&& (r is Ok || r == Err::<(String, Vec<u8>), Error>(Error::Unexpected))
                &&& *final(session) is Some
                &&& same_key_material(old(session)->0, final(session)->0)
                &&& session_wf(old(session)->0) ==> session_wf(final(session)->0)
                &&& exists|id: Seq<char>|
                    is_uuid_v4_string(id) && #[trigger] privacy_added(
                        old(session)->0.keeper@,
                        final(session)->0.keeper@,
                        id,
                        PrivacyV { url: url@, username: username@, password: password@ },
                    )
            }
        }),
        r is Ok ==> ({
            let (id, image) = r->Ok_0;
            &&& is_uuid_v4_string(id@)
            &&& privacy_added(
                old(session)->0.keeper@,
                final(session)->0.keeper@,
                id@,
                PrivacyV { url: url@, username: username@, password: password@ },
            )
            &&& image_of(final(session)->0, image@)
        }),
{
    if url.as_str().is_empty() || username.as_str().is_empty() || password.as_str().is_empty() {
        return Err(Error::InvalidReader);
    }
    match session {
        None => Err(Error::InvalidReader),
        Some(s) => {
            let ghost keeper_before = s.keeper@;
            let rand_hashtag = new_credential_id();
            let unique_hashtag = rand_hashtag.clone();
            let ghost pv = PrivacyV { url: url@, username: username@, password: password@ };
            s.keeper.add(rand_hashtag, url, username, password);
            proof {
                assert(privacy_added(keeper_before, s.keeper@, unique_hashtag@, pv));
            }
            match disk_dump(s) {
                Ok(image) => Ok((unique_hashtag, image)),
                Err(e) => Err(e),
            }
        },
    }
}

/// Overwrites the credential under the given id, persists, and returns
/// the file image to write.  An unknown id still re-persists and still
/// reports success.
pub fn update_privacy(
    session: &mut Option<UserSession>,
    unique_hashtag: String,
    url: String,
    username: String,
    password: String,
) -> (r: Result<(bool, Vec<u8>), Error>)
    ensures
        ({
            let rejected = unique_hashtag@.len() == 0 || url@.len() == 0 || username@.len() == 0
                || password@.len() == 0 || *old(session) is None;
            &&& rejected ==> r == Err::<(bool, Vec<u8>), Error>(Error::InvalidReader)
                && *final(session) == *old(session)
            &&& !rejected ==> {
                &&& (r is Ok || r == Err::<(bool, Vec<u8>), Error>(Error::Unexpected))
                &&& *final(session) is Some
                &&& same_key_material(old(session)->0, final(session)->0)
                &&& session_wf(old(session)->0) ==> session_wf(final(session)->0)
                &&& privacy_updated(
                    old(session)->0.keeper@,
                    final(session)->0.keeper@,
                    unique_hashtag@,
                    PrivacyV { url: url@, username: username@, password: password@ },
                )
            }
        }),
        r is Ok ==> ({
            let (flag, image) = r->Ok_0;
            &&& flag == true
            &&& image_of(final(session)->0, image@)
        }),
{
    if unique_hashtag.as_str().is_empty() || url.as_str().is_empty()
        || username.as_str().is_empty() || password.as_str().is_empty() {
        return Err(Error::InvalidReader);
    }
    match session {
        None => Err(Error::InvalidReader),
        Some(s) => {
            s.keeper.update(&unique_hashtag, url, username, password);
            match disk_dump(s) {
                Ok(image) => Ok((true, image)),
                Err(e) => Err(e),
            }
        },
    }
}

/// Unfiles the credential under the given id, persists, and returns
/// the file image to write.  An unknown id is rejected.
pub fn remove_privacy(session: &mut Option<UserSession>, unique_hashtag: String) -> (r: Result<
    Vec<u8>,
    Error,
>)
    ensures
        *old(session) is None ==> r == Err::<Vec<u8>, Error>(Error::InvalidReader) && *final(session)
            == *old(session),
        *old(session) is Some && !contains_key(old(session)->0.keeper@.heap, unique_hashtag@)
            ==> r == Err::<Vec<u8>, Error>(Error::InvalidParameter) && *final(session) == *old(session),
        *old(session) is Some && contains_key(old(session)->0.keeper@.heap, unique_hashtag@) ==> {
            &&& (r is Ok || r == Err::<Vec<u8>, Error>(Error::Unexpected))
            &&& *final(session) is Some
            &&& same_key_material(old(session)->0, final(session)->0)
            &&& session_wf(old(session)->0) ==> session_wf(final(session)->0)
            &&& privacy_removed(old(session)->0.keeper@, final(session)->0.keeper@, unique_hashtag@)
        },
        r is Ok ==> image_of(final(session)->0, r->Ok_0@),
{
    match session {
        None => Err(Error::InvalidReader),
        Some(s) => {
            if !s.keeper.remove(unique_hashtag.as_str()) {
                return Err(Error::InvalidParameter);
            }
            match disk_dump(s) {
                Ok(image) => Ok(image),
                Err(e) => Err(e),
            }
        },
    }
}

/// The sort key of an enumerated entry: the UTF-8 bytes of its url.
pub open spec fn url_key(p: PrivacySerializeV) -> Seq<u8> {
    encode_utf8(p.credential.url)
}

/// The id/credential views of enumerated entries, in order.
pub open spec fn entry_views(s: Seq<PrivacySerialize>) -> Seq<(Seq<char>, PrivacyV)> {
    s.map_values(|p: PrivacySerialize| (p@.hash, p@.credential))
}

/// Produces every entry of the vault, sorted by url in byte-wise
/// lexicographic order; exactly the vault's entries come out.
#[verifier::loop_isolation(false)]
pub fn fetch_sorted_privacy_vec(session: &Option<UserSession>) -> (r: Result<
    Vec<PrivacySerialize>,
    Error,
>)
    ensures
        session is None ==> r == Err::<Vec<PrivacySerialize>, Error>(Error::InvalidReader),
        session is Some ==> r is Ok && ({
            let v = r->Ok_0@;
            let heap = session->0.keeper@.heap;
            &&& v.len() == heap.len()
            &&& forall|i: int, j: int|
                0 <= i < j < v.len() ==> lex_leq(url_key((#[trigger] v[i])@), url_key(
                    (#[trigger] v[j])@,
                ))
            &&& entry_views(v).to_multiset() == heap.to_multiset()
        }),
{
    broadcast use vstd::seq_lib::group_to_multiset_ensures;

    let s = match session {
        None => {
            return Err(Error::InvalidReader);
        },
        Some(s) => s,
    };
    let ghost heap0 = s.keeper@.heap;
    let mut src = s.keeper.entries();
    proof {
        assert(entry_views(src@) =~= heap0);
    }
    let mut out: Vec<PrivacySerialize> = Vec::new();
    proof {
        assert(entry_views(out@) =~= Seq::<(Seq<char>, PrivacyV)>::empty());
        assert(entry_views(out@).to_multiset().add(entry_views(src@).to_multiset()) =~= heap0.to_multiset());
    }
    while src.len() > 0
        invariant
            out@.len() + src@.len() == heap0.len(),
            entry_views(out@).to_multiset().add(entry_views(src@).to_multiset())
                == heap0.to_multiset(),
            forall|i: int, j: int|
                0 <= i < j < out@.len() ==> lex_leq(url_key((#[trigger] out@[i])@), url_key(
                    (#[trigger] out@[j])@,
                )),
            forall|i: int, j: int|
                0 <= i < out@.len() && 0 <= j < src@.len() ==> lex_leq(
                    url_key((#[trigger] out@[i])@),
                    url_key((#[trigger] src@[j])@),
                ),
        decreases src@.len(),
    {
        let mut m: usize = 0;
        let mut i: usize = 1;
        proof {
            crate::encoding::lemma_lex_leq_refl(url_key(src@[0]@));
        }
        while i < src.len()
            invariant
                src@.len() > 0,
                0 <= m < i <= src@.len(),
                forall|j: int|
                    0 <= j < i ==> lex_leq(url_key(src@[m as int]@), url_key((#[trigger] src@[j])@)),
            decreases src@.len() - i,
        {
            if !crate::encoding::bytes_leq(
                src[m].credential.url.as_str().as_bytes(),
                src[i].credential.url.as_str().as_bytes(),
            ) {
                proof {
                    crate::encoding::lemma_lex_leq_total(
                        url_key(src@[m as int]@),
                        url_key(src@[i as int]@),
                    );
                    assert forall|j: int| 0 <= j < i + 1 implies lex_leq(
                        url_key(src@[i as int]@),
                        url_key((#[trigger] src@[j])@),
                    ) by {
                        if j < i {
                            crate::encoding::lemma_lex_leq_trans(
                                url_key(src@[i as int]@),
                                url_key(src@[m as int]@),
                                url_key(src@[j]@),
                            );
                        } else {
                            crate::encoding::lemma_lex_leq_refl(url_key(src@[i as int]@));
                        }
                    }
                }
                m = i;
            }
            i = i + 1;
        }
        let ghost src_before = src@;
        let ghost out_before = out@;
        let e = src.remove(m);
        out.push(e);
        proof {
            let ev = (e@.hash, e@.credential);
            let os = entry_views(out_before);
            let ss = entry_views(src_before);
            assert(ss[m as int] == ev);
            assert(entry_views(src@) =~= ss.remove(m as int));
            assert(entry_views(out@) =~= os.push(ev));
            assert(ss.to_multiset().count(ev) > 0) by {
                assert(ss.contains(ev));
            }
            assert(os.push(ev).to_multiset().add(ss.remove(m as int).to_multiset()) =~= os.to_multiset().add(ss.to_multiset())) by {
                assert(os.push(ev).to_multiset() =~= os.to_multiset().insert(ev));
                assert(ss.remove(m as int).to_multiset() =~= ss.to_multiset().remove(ev));
            }
            assert forall|x: int, y: int| 0 <= x < out@.len() && 0 <= y < src@.len() implies lex_leq(
                url_key((#[trigger] out@[x])@),
                url_key((#[trigger] src@[y])@),
            ) by {
                let sy: int = if y < m { y } else { y + 1 };
                assert(src@[y] == src_before[sy]);
                if x < out_before.len() {
                    assert(lex_leq(url_key(out_before[x]@), url_key(src_before[sy]@)));
                } else {
                    assert(out@[x] == e);
                    assert(lex_leq(url_key(src_before[m as int]@), url_key(src_before[sy]@)));
                }
            }
        }
    }
    proof {
        assert(entry_views(src@).to_multiset() =~= Multiset::<(Seq<char>, PrivacyV)>::empty());
        assert(entry_views(out@).to_multiset() =~= heap0.to_multiset());
    }
    Ok(out)
}

/// Looks a credential up and hands back the field to place on the
/// clipboard; the caller performs the clipboard write.
pub fn copy_to_clipboard(
    session: &Option<UserSession>,
    unique_hashtag: String,
    thing: String,
) -> (r: Result<String, Error>)
    ensures
        session is None ==> r == Err::<String, Error>(Error::InvalidReader),
        session is Some && !contains_key(session->0.keeper@.heap, unique_hashtag@) ==> r == Err::<
            String,
            Error,
        >(Error::InvalidParameter),
        session is Some && contains_key(session->0.keeper@.heap, unique_hashtag@) && thing@
            != "username"@ && thing@ != "password"@ ==> r == Err::<String, Error>(
            Error::InvalidParameter,
        ),
        session is Some && session->0.keeper@.wf() && contains_key(
            session->0.keeper@.heap,
            unique_hashtag@,
        ) ==> {
            &&& thing@ == "username"@ ==> r is Ok && r->Ok_0@ == value_of(
                session->0.keeper@.heap,
                unique_hashtag@,
            ).username
            &&& thing@ == "password"@ ==> r is Ok && r->Ok_0@ == value_of(
                session->0.keeper@.heap,
                unique_hashtag@,
            ).password
        },
{
    let s = match session {
        None => {
            return Err(Error::InvalidReader);
        },
        Some(s) => s,
    };
    let entry = match s.keeper.entry(unique_hashtag.as_str()) {
        None => {
            return Err(Error::InvalidParameter);
        },
        Some(e) => e,
    };
    proof {
        reveal_strlit("username");
        reveal_strlit("password");
        assert("username"@[0] == 'u' && "password"@[0] == 'p');
        assert("username"@ != "password"@);
    }
    if str_eq(thing.as_str(), "username") {
        Ok(entry.username.clone())
    } else if str_eq(thing.as_str(), "password") {
        Ok(entry.password.clone())
    } else {
        Err(Error::InvalidParameter)
    }
}

/// Whether a character belongs to the password generator's alphabet:
/// `a`–`z`, `A`–`Z`, `0`–`9`, or one of `!@#$%^&*`.
pub open spec fn is_password_char(c: char) -> bool {
    ||| 97 <= c as u32 <= 122
    ||| 65 <= c as u32 <= 90
    ||| 48 <= c as u32 <= 57
    ||| c == '!'
    ||| c == '@'
    ||| c == '#'
    ||| c == '$'
    ||| c == '%'
    ||| c == '^'
    ||| c == '&'
    ||| c == '*'
}

/// Pushes every byte of an inclusive ASCII range onto the alphabet.
fn push_byte_range(alphabet: &mut Vec<u8>, lo: u8, hi: u8)
    requires
        lo <= hi < 128,
    ensures
        final(alphabet)@.len() == old(alphabet)@.len() + (hi - lo) + 1,
        forall|j: int|
            0 <= j < old(alphabet)@.len() ==> final(alphabet)@[j] == old(alphabet)@[j],
        forall|j: int|
            old(alphabet)@.len() <= j < final(alphabet)@.len() ==> lo <= #[trigger] final(alphabet)@[j]
                <= hi,
{
    let mut c: u8 = lo;
    while c < hi
        invariant
            lo <= c <= hi < 128,
            alphabet@.len() == old(alphabet)@.len() + (c - lo),
            forall|j: int| 0 <= j < old(alphabet)@.len() ==> alphabet@[j] == old(alphabet)@[j],
            forall|j: int|
                old(alphabet)@.len() <= j < alphabet@.len() ==> lo <= #[trigger] alphabet@[j] <= hi,
        decreases hi - c,
    {
        alphabet.push(c);
        c = c + 1;
    }
    alphabet.push(c);
}

/// Generates a 16-character password drawn uniformly from the
/// generator's alphabet.
pub fn generate_password() -> (r: Result<String, Error>)
    ensures
        r is Ok,
        r->Ok_0@.len() == 16,
        forall|i: int| 0 <= i < r->Ok_0@.len() ==> is_password_char(#[trigger] r->Ok_0@[i]),
{
    let mut alphabet: Vec<u8> = Vec::new();
    push_byte_range(&mut alphabet, 97, 122);  // a-z
    push_byte_range(&mut alphabet, 65, 90);  // A-Z
    push_byte_range(&mut alphabet, 48, 57);  // 0-9
    alphabet.push(33);  // !
    alphabet.push(64);  // @
    alphabet.push(35);  // #
    alphabet.push(36);  // $
    alphabet.push(37);  // %
    alphabet.push(94);  // ^
    alphabet.push(38);  // &
    alphabet.push(42);  // *
    proof {
        assert forall|j: int| 0 <= j < alphabet@.len() implies alphabet@[j] < 128 && is_password_char(
            #[trigger] alphabet@[j] as char,
        ) by {
            let b = alphabet@[j];
            assert(b as char as u32 == b);
        }
    }
    let p = match random_password(alphabet.as_slice(), 16) {
        Ok(p) => p,
        Err(_) => {
            return Err(Error::Unexpected);  // unreachable: 16 lies in [10, 128]
        },
    };
    proof {
        assert forall|i: int| 0 <= i < p@.len() implies is_password_char(#[trigger] p@[i]) by {
            let j = choose|j: int| 0 <= j < alphabet@.len() && p@[i] == #[trigger] alphabet@[j] as char;
        }
    }
    Ok(p)
}

} // verus!
