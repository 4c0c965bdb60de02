//! Passphrases that are kept for unlocking a wallet by fingerprint or face.

use crate::places::Os;
use crate::text::{bytes_outcome, text_of, utf8_string};
use crate::wire::{copy_range, push_all};
use vstd::prelude::*;
use vstd::utf8::{decode_utf8, encode_utf8, valid_utf8};

verus! {

pub const KEY_LEN: usize = 32;

pub const NONCE_LEN: usize = 12;

pub const TAG_LEN: usize = 16;

/// The longest text that can be sealed, in bytes.
pub const MAX_SEALED: u64 = 0xf_ffff_ffe0;

// ── Sealing ──

/// What AES-256-GCM makes of a text under a key and a nonce: the ciphertext,
/// then the tag.
pub uninterp spec fn aes_sealed(key: Seq<u8>, nonce: Seq<u8>, plain: Seq<u8>) -> Seq<u8>;

/// What AES-256-GCM makes of a ciphertext with its tag; none if the tag is not
/// that of the ciphertext under this key and nonce.
pub uninterp spec fn aes_opened(key: Seq<u8>, nonce: Seq<u8>, data: Seq<u8>) -> Option<Seq<u8>>;

pub open spec fn optional_bytes(v: Option<Vec<u8>>) -> Option<Seq<u8>> {
    match v {
        Some(b) => Some(b@),
        None => None,
    }
}

/// `SecureRandom::fill` of `ring::rand::SystemRandom` on a buffer of `n` bytes.
/// Which bytes come, and whether any do, is up to the system.
#[verifier::external_body]
fn random_bytes(n: usize) -> (r: Option<Vec<u8>>)
    ensures
        r matches Some(v) ==> v@.len() == n,
{
    let mut out = vec![0u8; n];
    ring::rand::SecureRandom::fill(&ring::rand::SystemRandom::new(), &mut out).ok()?;
    Some(out)
}

/// `ring::aead::LessSafeKey::seal_in_place_append_tag` with `AES_256_GCM` and
/// no associated data. It fails on exactly the texts that are too long; what
/// it gives is only named, but it is longer than the text by the tag, and
/// opening it gives the text back.
#[verifier::external_body]
fn aes_seal(key: &[u8], nonce: &[u8], plain: &[u8]) -> (r: Option<Vec<u8>>)
    requires
        key@.len() == KEY_LEN,
        nonce@.len() == NONCE_LEN,
    ensures
        r is Some <==> plain@.len() <= MAX_SEALED,
        r matches Some(c) ==> c@ == aes_sealed(key@, nonce@, plain@),
        r matches Some(c) ==> c@.len() == plain@.len() + TAG_LEN,
        r matches Some(c) ==> aes_opened(key@, nonce@, c@) == Some(plain@),
{
    let key = ring::aead::UnboundKey::new(&ring::aead::AES_256_GCM, key).ok()?;
    let nonce = ring::aead::Nonce::try_assume_unique_for_key(nonce).ok()?;
    let mut out = plain.to_vec();
    ring::aead::LessSafeKey::new(key)
        .seal_in_place_append_tag(nonce, ring::aead::Aad::empty(), &mut out)
        .ok()?;
    Some(out)
}

/// `ring::aead::LessSafeKey::open_in_place` with `AES_256_GCM` and no
/// associated data. Only named.
#[verifier::external_body]
fn aes_open(key: &[u8], nonce: &[u8], data: &[u8]) -> (r: Option<Vec<u8>>)
    requires
        key@.len() == KEY_LEN,
        nonce@.len() == NONCE_LEN,
    ensures
        optional_bytes(r) == aes_opened(key@, nonce@, data@),
{
    let key = ring::aead::UnboundKey::new(&ring::aead::AES_256_GCM, key).ok()?;
    let nonce = ring::aead::Nonce::try_assume_unique_for_key(nonce).ok()?;
    let mut out = data.to_vec();
    let plain = ring::aead::LessSafeKey::new(key)
        .open_in_place(nonce, ring::aead::Aad::empty(), &mut out)
        .ok()?;
    Some(plain.to_vec())
}

// ── Files ──

/// The file with a passphrase: the key, the nonce, then the sealed passphrase.
pub open spec fn file_with(key: Seq<u8>, nonce: Seq<u8>, sealed: Seq<u8>) -> Seq<u8> {
    key + nonce + sealed
}

/// The text that a byte string is, if it is UTF-8.
pub open spec fn text_from(opened: Option<Seq<u8>>) -> Option<Seq<char>> {
    match opened {
        Some(p) => if valid_utf8(p) {
            Some(decode_utf8(p))
        } else {
            None
        },
        None => None,
    }
}

/// The passphrase in a file; none if the file is too short, or was not sealed
/// under the key in it.
pub open spec fn passphrase_in(file: Seq<u8>) -> Option<Seq<char>> {
    if file.len() < KEY_LEN + NONCE_LEN + TAG_LEN {
        None
    } else {
        text_from(aes_opened(file.take(32), file.subrange(32, 44), file.skip(44)))
    }
}

/// Makes a file with a passphrase under a given key and nonce.
pub fn seal_with(key: &[u8], nonce: &[u8], passphrase: &str) -> (r: Result<Vec<u8>, String>)
    requires
        key@.len() == KEY_LEN,
        nonce@.len() == NONCE_LEN,
    ensures
        match r {
            Ok(file) => {
                &&& encode_utf8(passphrase@).len() <= MAX_SEALED
                &&& file@ == file_with(
                    key@,
                    nonce@,
                    aes_sealed(key@, nonce@, encode_utf8(passphrase@)),
                )
                &&& passphrase_in(file@) == Some(passphrase@)
            },
            Err(e) => encode_utf8(passphrase@).len() > MAX_SEALED && e@ == "encryption failed"@,
        },
{
    let plain = passphrase.as_bytes();
    let data = match aes_seal(key, nonce, plain) {
        Some(d) => d,
        None => return Err("encryption failed".to_owned()),
    };
    let mut out: Vec<u8> = Vec::new();
    push_all(&mut out, key);
    push_all(&mut out, nonce);
    push_all(&mut out, &data);
    proof {
        let f = file_with(key@, nonce@, data@);
        assert(out@ =~= f);
        assert(f.take(32) =~= key@);
        assert(f.subrange(32, 44) =~= nonce@);
        assert(f.skip(44) =~= data@);
        vstd::utf8::encode_utf8_valid_utf8(passphrase@);
        vstd::utf8::encode_utf8_decode_utf8(passphrase@);
    }
    Ok(out)
}

/// Whether the system can have given these bytes when asked for `n` random
/// ones.
pub closed spec fn are_random(n: usize, bytes: Vec<u8>) -> bool {
    call_ensures(random_bytes, (n,), Some(bytes))
}

/// Whether the system can have given none when asked for `n` random bytes.
pub closed spec fn no_random(n: usize) -> bool {
    call_ensures(random_bytes, (n,), None)
}

/// Whether `r` can come of saving a passphrase: the file of a new key and a new
/// nonce, both random.
pub open spec fn was_saved(passphrase: Seq<char>, r: Result<Seq<u8>, Seq<char>>) -> bool {
    match r {
        Ok(file) => exists|key: Vec<u8>, nonce: Vec<u8>|
            {
                &&& #[trigger] are_random(KEY_LEN, key)
                &&& #[trigger] are_random(NONCE_LEN, nonce)
                &&& file == file_with(
                    key@,
                    nonce@,
                    aes_sealed(key@, nonce@, encode_utf8(passphrase)),
                )
            },
        Err(e) => {
            ||| e == "rng failed"@ && (no_random(KEY_LEN) || no_random(NONCE_LEN))
            ||| e == "encryption failed"@ && encode_utf8(passphrase).len() > MAX_SEALED
        },
    }
}

/// Makes a file with a passphrase, under a new key and nonce. The passphrase
/// can be read back from it. Whether there is randomness for a key is up to
/// the system; that failing, or a passphrase that is too long, are the only
/// errors.
pub fn save(passphrase: &str) -> (r: Result<Vec<u8>, String>)
    ensures
        was_saved(passphrase@, bytes_outcome(r)),
        r matches Ok(file) ==> passphrase_in(file@) == Some(passphrase@),
{
    let key = match random_bytes(KEY_LEN) {
        Some(k) => k,
        None => return Err("rng failed".to_owned()),
    };
    let nonce = match random_bytes(NONCE_LEN) {
        Some(n) => n,
        None => return Err("rng failed".to_owned()),
    };
    assert(are_random(KEY_LEN, key));
    assert(are_random(NONCE_LEN, nonce));
    seal_with(&key, &nonce, passphrase)
}

/// The text that was sealed, if it is one.
pub fn read_opened(opened: Option<Vec<u8>>) -> (r: Option<String>)
    ensures
        text_of(r) == text_from(optional_bytes(opened)),
{
    match opened {
        Some(p) => match utf8_string(p) {
            Ok(t) => Some(t),
            Err(_) => None,
        },
        None => None,
    }
}

/// The passphrase in a file.
pub fn open_file(file: &[u8]) -> (r: Option<String>)
    ensures
        text_of(r) == passphrase_in(file@),
{
    if file.len() < KEY_LEN + NONCE_LEN + TAG_LEN {
        return None;
    }
    let key = copy_range(file, 0, 32);
    let nonce = copy_range(file, 32, 44);
    let data = copy_range(file, 44, file.len());
    assert(key@ =~= file@.take(32));
    assert(data@ =~= file@.skip(44));
    read_opened(aes_open(&key, &nonce, &data))
}

// ── Loading ──

/// What happens while a passphrase is loaded.
pub enum LoadEvent {
    /// Whether there is a file.
    Looked(bool),
    /// Whether the user has shown a finger or face.
    Prompted(bool),
    /// What is in the file.
    Read(Option<Vec<u8>>),
}

/// What to do next.
pub enum LoadAct {
    /// Ask for the finger or face.
    Prompt,
    /// Read the file.
    Read,
    /// Over: the passphrase, if there is one.
    Done(Option<String>),
}

pub enum LoadActView {
    Prompt,
    Read,
    Done(Option<Seq<char>>),
}

impl View for LoadAct {
    type V = LoadActView;

    open spec fn view(&self) -> LoadActView {
        match self {
            LoadAct::Prompt => LoadActView::Prompt,
            LoadAct::Read => LoadActView::Read,
            LoadAct::Done(t) => LoadActView::Done(text_of(*t)),
        }
    }
}

/// What follows an event: nothing is read before the user has been seen.
pub open spec fn load_next(event: LoadEvent) -> LoadActView {
    match event {
        LoadEvent::Looked(there) => if there {
            LoadActView::Prompt
        } else {
            LoadActView::Done(None)
        },
        LoadEvent::Prompted(seen) => if seen {
            LoadActView::Read
        } else {
            LoadActView::Done(None)
        },
        LoadEvent::Read(file) => LoadActView::Done(
            match file {
                Some(f) => passphrase_in(f@),
                None => None,
            },
        ),
    }
}

/// What follows an event while a passphrase is loaded.
pub fn load(event: LoadEvent) -> (r: LoadAct)
    ensures
        r@ == load_next(event),
{
    match event {
        LoadEvent::Looked(there) => if there {
            LoadAct::Prompt
        } else {
            LoadAct::Done(None)
        },
        LoadEvent::Prompted(seen) => if seen {
            LoadAct::Read
        } else {
            LoadAct::Done(None)
        },
        LoadEvent::Read(file) => match file {
            Some(f) => LoadAct::Done(open_file(&f)),
            None => LoadAct::Done(None),
        },
    }
}

/// A passphrase comes out only where the file was read, and the file is read
/// only where the user was seen.
pub proof fn law_passphrase_needs_user(event: LoadEvent)
    ensures
        load_next(event) matches LoadActView::Done(Some(_)) ==> event is Read,
        load_next(event) is Read ==> event == LoadEvent::Prompted(true),
{
}

// ── Who does it ──

/// Who keeps passphrases.
#[derive(Clone, Copy, PartialEq, Eq, Structural)]
pub enum Keeper {
    /// Functions that the app registered.
    Registered,
    /// This program, with files.
    Files,
    /// The Android app.
    Android,
    /// Nobody.
    Nobody,
}

/// What is said where nobody keeps passphrases.
pub const NOT_AVAILABLE: &'static str = "Biometric not available on this platform.";

/// Who keeps passphrases.
pub fn biometric_keeper(registered: bool, os: Os) -> (r: Keeper)
    ensures
        r == if registered {
            Keeper::Registered
        } else if os == Os::MacOs {
            Keeper::Files
        } else if os == Os::Android {
            Keeper::Android
        } else {
            Keeper::Nobody
        },
{
    if registered {
        return Keeper::Registered;
    }
    match os {
        Os::MacOs => Keeper::Files,
        Os::Android => Keeper::Android,
        _ => Keeper::Nobody,
    }
}

/// Whether the Android app can tell its user, by its answer; none if it could
/// not be asked.
pub fn is_available(answer: Option<bool>) -> (r: bool)
    ensures
        r == (answer == Some(true)),
{
    match answer {
        Some(yes) => yes,
        None => false,
    }
}

/// A file is taken apart as it was put together: 32 bytes of key, 12 of nonce,
/// and the rest is what was sealed; a shorter file holds nothing.
pub proof fn law_file_layout(key: Seq<u8>, nonce: Seq<u8>, sealed: Seq<u8>, file: Seq<u8>)
    requires
        key.len() == 32,
        nonce.len() == 12,
    ensures
        sealed.len() >= 16 ==> passphrase_in(file_with(key, nonce, sealed)) == text_from(
            aes_opened(key, nonce, sealed),
        ),
        file.len() < 60 ==> passphrase_in(file) is None,
{
    let f = file_with(key, nonce, sealed);
    assert(f.take(32) =~= key);
    assert(f.subrange(32, 44) =~= nonce);
    assert(f.skip(44) =~= sealed);
}

/// A passphrase is only read where there is a file and the user has been seen.
pub proof fn law_loading()
    ensures
        load_next(LoadEvent::Looked(true)) == LoadActView::Prompt,
        load_next(LoadEvent::Looked(false)) == LoadActView::Done(None),
        load_next(LoadEvent::Prompted(true)) == LoadActView::Read,
        load_next(LoadEvent::Prompted(false)) == LoadActView::Done(None),
        load_next(LoadEvent::Read(None)) == LoadActView::Done(None),
{
}

} // verus!
