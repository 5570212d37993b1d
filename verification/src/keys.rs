//! Account keys, transaction signatures and their text form.

use vstd::prelude::*;
use vstd::std_specs::cmp::PartialEqSpec;

verus! {

/// A 32-byte account key.
#[derive(Clone, Copy, Debug, Eq, Hash)]
pub struct Pubkey {
    pub bytes: [u8; 32],
}

/// A 64-byte transaction signature.
#[derive(Clone, Copy, Debug, Eq, Hash)]
pub struct Signature {
    pub bytes: [u8; 64],
}

impl View for Pubkey {
    type V = Seq<u8>;

    open spec fn view(&self) -> Seq<u8> {
        self.bytes@
    }
}

impl View for Signature {
    type V = Seq<u8>;

    open spec fn view(&self) -> Seq<u8> {
        self.bytes@
    }
}

impl PartialEq for Pubkey {
    fn eq(&self, other: &Self) -> (r: bool) {
        let mut i: usize = 0;
        while i < 32
            invariant
                i <= 32,
                forall|j: int| 0 <= j < i ==> self.bytes[j] == other.bytes[j],
            decreases 32 - i,
        {
            if self.bytes[i] != other.bytes[i] {
                return false;
            }
            i = i + 1;
        }
        proof {
            assert(self.bytes =~= other.bytes);
        }
        true
    }
}

impl vstd::std_specs::cmp::PartialEqSpecImpl for Pubkey {
    open spec fn obeys_eq_spec() -> bool {
        true
    }

    open spec fn eq_spec(&self, other: &Self) -> bool {
        *self == *other
    }
}

impl PartialEq for Signature {
    fn eq(&self, other: &Self) -> (r: bool) {
        let mut i: usize = 0;
        while i < 64
            invariant
                i <= 64,
                forall|j: int| 0 <= j < i ==> self.bytes[j] == other.bytes[j],
            decreases 64 - i,
        {
            if self.bytes[i] != other.bytes[i] {
                return false;
            }
            i = i + 1;
        }
        proof {
            assert(self.bytes =~= other.bytes);
        }
        true
    }
}

impl vstd::std_specs::cmp::PartialEqSpecImpl for Signature {
    open spec fn obeys_eq_spec() -> bool {
        true
    }

    open spec fn eq_spec(&self, other: &Self) -> bool {
        *self == *other
    }
}

/// The key with the given 32 bytes.
pub open spec fn key_of(bytes: Seq<u8>) -> Pubkey {
    choose|k: Pubkey| #[trigger] k@ == bytes
}

/// The signature with the given 64 bytes.
pub open spec fn signature_of(bytes: Seq<u8>) -> Signature {
    choose|s: Signature| #[trigger] s@ == bytes
}

/// The key of 32 zero bytes. It stands for "no key".
pub open spec fn default_key() -> Pubkey {
    key_of(Seq::new(32, |i: int| 0u8))
}

/// The key that a byte string holds: its 32 bytes, or the default key where
/// it has any other length.
pub open spec fn read_key(bytes: Seq<u8>) -> Pubkey {
    if bytes.len() == 32 {
        key_of(bytes)
    } else {
        default_key()
    }
}

/// The text that `Display` writes for the key with these 32 bytes.
pub uninterp spec fn base58_text(key: Seq<u8>) -> Seq<char>;

/// The 32 bytes of the key that `FromStr` reads from a text, if it reads one.
pub uninterp spec fn base58_bytes(text: Seq<char>) -> Option<Seq<u8>>;

/// The key that a text names, if it names one.
pub open spec fn key_in_text(text: Seq<char>) -> Option<Pubkey> {
    match base58_bytes(text) {
        Some(bytes) => Some(key_of(bytes)),
        None => None,
    }
}

/// Calls `From<[u8; 32]>` and `Display` of `solana_sdk::pubkey::Pubkey`.
///
/// The text is a function of the 32 bytes alone, and `FromStr` of the same
/// type reads the same bytes back from it. Which characters it consists of is
/// left to the name `base58_text`.
#[verifier::external_body]
fn encode_base58(key: [u8; 32]) -> (text: String)
    ensures
        text@ == base58_text(key@),
        base58_bytes(text@) == Some(key@),
{
    solana_sdk::pubkey::Pubkey::from(key).to_string()
}

/// Calls `FromStr` of `solana_sdk::pubkey::Pubkey`.
///
/// Whether the text names a key, and which, is a function of the text alone.
/// The reason for a refusal is not kept.
#[verifier::external_body]
fn decode_base58(text: &str) -> (key: Option<[u8; 32]>)
    ensures
        match key {
            Some(bytes) => base58_bytes(text@) == Some(bytes@),
            None => base58_bytes(text@) is None,
        },
{
    match text.parse::<solana_sdk::pubkey::Pubkey>() {
        Ok(key) => Some(key.to_bytes()),
        Err(_) => None,
    }
}

/// A key is determined by its bytes, and there are 32 of them.
pub proof fn law_key_is_its_bytes(a: Pubkey, b: Pubkey)
    ensures
        a@ == a.bytes@,
        a@ == b@ <==> a == b,
        key_of(a@) == a,
        a@.len() == 32,
{
    if a@ == b@ {
        assert(a.bytes =~= b.bytes);
    }
    let k = key_of(a@);
    assert(k@ == a@);
    assert(k.bytes =~= a.bytes);
}

/// A signature is determined by its bytes, and there are 64 of them.
pub proof fn law_signature_is_its_bytes(a: Signature, b: Signature)
    ensures
        a@ == a.bytes@,
        a@ == b@ <==> a == b,
        signature_of(a@) == a,
        a@.len() == 64,
{
    if a@ == b@ {
        assert(a.bytes =~= b.bytes);
    }
    let s = signature_of(a@);
    assert(s@ == a@);
    assert(s.bytes =~= a.bytes);
}

proof fn lemma_key_with_prefix(bytes: Seq<u8>, n: int) -> (key: Pubkey)
    requires
        bytes.len() == 32,
        0 <= n <= 32,
    ensures
        forall|i: int| 0 <= i < n ==> key.bytes[i] == bytes[i],
    decreases n,
{
    if n == 0 {
        default_key()
    } else {
        let shorter = lemma_key_with_prefix(bytes, n - 1);
        let array = vstd::array::spec_array_update(shorter.bytes, n - 1, bytes[n - 1]);
        assert(array@ == shorter.bytes@.update(n - 1, bytes[n - 1]));
        assert forall|i: int| 0 <= i < n implies array[i] == bytes[i] by {
            assert(array@[i] == array[i]);
            assert(shorter.bytes@[i] == shorter.bytes[i]);
        }
        Pubkey { bytes: array }
    }
}

/// Any 32 bytes are the bytes of a key, and reading them gives that key.
pub proof fn law_key_of_bytes(bytes: Seq<u8>)
    requires
        bytes.len() == 32,
    ensures
        key_of(bytes)@ == bytes,
        read_key(bytes)@ == bytes,
{
    let key = lemma_key_with_prefix(bytes, 32);
    assert(key@ =~= bytes);
}

/// The default key is the one of 32 zero bytes.
pub proof fn law_default_key_is_zero()
    ensures
        default_key()@ == Seq::new(32, |i: int| 0u8),
{
    law_key_of_bytes(Seq::new(32, |i: int| 0u8));
}

/// Two keys compare as equal exactly where all their bytes agree, and so do
/// two signatures.
pub proof fn law_comparison_reads_all_bytes(a: Pubkey, b: Pubkey, s: Signature, t: Signature)
    ensures
        Pubkey::obeys_eq_spec(),
        Signature::obeys_eq_spec(),
        a.eq_spec(&b) <==> forall|i: int| 0 <= i < 32 ==> #[trigger] a.bytes@[i] == b.bytes@[i],
        s.eq_spec(&t) <==> forall|i: int| 0 <= i < 64 ==> #[trigger] s.bytes@[i] == t.bytes@[i],
{
    if forall|i: int| 0 <= i < 32 ==> #[trigger] a.bytes@[i] == b.bytes@[i] {
        assert(a.bytes@ =~= b.bytes@);
        law_key_is_its_bytes(a, b);
    }
    if forall|i: int| 0 <= i < 64 ==> #[trigger] s.bytes@[i] == t.bytes@[i] {
        assert(s.bytes@ =~= t.bytes@);
        law_signature_is_its_bytes(s, t);
    }
}

/// A byte string reads as the key of the same bytes where it has 32 of them,
/// and as the key of 32 zero bytes where it has not.
pub proof fn law_read_key(bytes: Seq<u8>)
    ensures
        bytes.len() == 32 ==> read_key(bytes).bytes@ == bytes,
        bytes.len() != 32 ==> read_key(bytes).bytes@ == Seq::new(32, |i: int| 0u8),
{
    law_default_key_is_zero();
    if bytes.len() == 32 {
        law_key_of_bytes(bytes);
    }
}

/// A text names a key exactly where base58 reads one from it, and it is the
/// key of the bytes that are read.
pub proof fn law_key_in_text(text: Seq<char>)
    ensures
        key_in_text(text) is Some <==> base58_bytes(text) is Some,
        base58_bytes(text) matches Some(bytes) ==> bytes.len() == 32 ==> (key_in_text(
            text,
        )->0).bytes@ == bytes,
{
    if let Some(bytes) = base58_bytes(text) {
        if bytes.len() == 32 {
            law_key_of_bytes(bytes);
        }
    }
}

impl Default for Pubkey {
    fn default() -> (r: Self)
        ensures
            r == default_key(),
            r@ == Seq::new(32, |i: int| 0u8),
    {
        let r = Pubkey { bytes: [0u8; 32] };
        proof {
            assert(r@ =~= Seq::new(32, |i: int| 0u8));
            law_key_is_its_bytes(r, r);
        }
        r
    }
}

impl Default for Signature {
    fn default() -> (r: Self)
        ensures
            r@ == Seq::new(64, |i: int| 0u8),
    {
        let r = Signature { bytes: [0u8; 64] };
        assert(r@ =~= Seq::new(64, |i: int| 0u8));
        r
    }
}

/// The key with exactly these bytes, if there are 32.
pub(crate) fn key_from_slice(bytes: &[u8]) -> (r: Option<Pubkey>)
    ensures
        r is Some <==> bytes@.len() == 32,
        r matches Some(k) ==> k@ == bytes@ && k.bytes@ == bytes@ && k == key_of(bytes@),
{
    if bytes.len() != 32 {
        return None;
    }
    let mut array: [u8; 32] = [0u8; 32];
    let mut i: usize = 0;
    while i < 32
        invariant
            i <= 32,
            bytes@.len() == 32,
            forall|j: int| 0 <= j < i ==> array[j] == bytes[j],
        decreases 32 - i,
    {
        array[i] = bytes[i];
        i = i + 1;
    }
    let key = Pubkey { bytes: array };
    proof {
        assert(key@ =~= bytes@);
        law_key_is_its_bytes(key, key);
    }
    Some(key)
}

/// The base58 text of a 32-byte key, and nothing for any other length.
pub fn pubkey_bytes_to_bs58(bytes: &[u8]) -> (r: Option<String>)
    ensures
        r is Some <==> bytes@.len() == 32,
        r matches Some(text) ==> {
            &&& text@ == base58_text(bytes@)
            &&& base58_bytes(text@) == Some(bytes@)
        },
{
    match key_from_slice(bytes) {
        Some(key) => Some(encode_base58(key.bytes)),
        None => None,
    }
}

/// The key that a base58 text names, if it names one.
pub fn parse_pubkey(text: &str) -> (r: Option<Pubkey>)
    ensures
        r == key_in_text(text@),
        r is Some <==> base58_bytes(text@) is Some,
        r matches Some(key) ==> base58_bytes(text@) == Some(key@),
{
    match decode_base58(text) {
        Some(bytes) => {
            let key = Pubkey { bytes };
            proof {
                law_key_is_its_bytes(key, key);
            }
            Some(key)
        },
        None => None,
    }
}

/// The key in a message's byte string: 32 bytes are that key, and anything
/// else reads as the default key.
pub fn read_pubkey_fast(bytes: &[u8]) -> (r: Pubkey)
    ensures
        r == read_key(bytes@),
        bytes@.len() == 32 ==> r@ == bytes@,
        bytes@.len() != 32 ==> r@ == Seq::new(32, |i: int| 0u8),
{
    match key_from_slice(bytes) {
        Some(key) => key,
        None => Pubkey::default(),
    }
}

/// The transaction signature with exactly these bytes, if there are 64.
pub fn try_yellowstone_signature(sig: &[u8]) -> (r: Option<Signature>)
    ensures
        r is Some <==> sig@.len() == 64,
        r matches Some(s) ==> s@ == sig@ && s.bytes@ == sig@ && s == signature_of(sig@),
{
    if sig.len() != 64 {
        return None;
    }
    let mut array: [u8; 64] = [0u8; 64];
    let mut i: usize = 0;
    while i < 64
        invariant
            i <= 64,
            sig@.len() == 64,
            forall|j: int| 0 <= j < i ==> array[j] == sig[j],
        decreases 64 - i,
    {
        array[i] = sig[i];
        i = i + 1;
    }
    let signature = Signature { bytes: array };
    proof {
        assert(signature@ =~= sig@);
        law_signature_is_its_bytes(signature, signature);
    }
    Some(signature)
}

}
