use vstd::prelude::*;

use vstd::string::StringSliceAdditionalSpecFns;

use crate::codec::bytes_eq;

verus! {

/// The signature data of a single signer.
#[derive(Clone, Debug, PartialEq)]
pub struct Single {
    /// mode is the signing mode of the single signer, as its protobuf number
    pub mode: i32,
    /// signature is the raw signature bytes
    pub signature: Vec<u8>,
}

/// A signing mode, with its own security guarantees.
#[derive(Clone, Copy, Debug, PartialEq, Eq, Structural, Hash, PartialOrd, Ord)]
pub enum SignMode {
    /// An unknown signing mode, which is rejected.
    Unspecified,
    /// Signs the raw bytes of a SignDoc.
    Direct,
    /// Signs a human-readable rendering on top of the binary one.
    Textual,
    /// Signs a SignDocDirectAux, without other signers' signer_info.
    DirectAux,
    /// The legacy Amino JSON mode.
    LegacyAminoJson,
    /// EIP-191 signing.
    Eip191,
}

/// The name of a signing mode in the protobuf definition.
pub open spec fn sign_mode_name(m: SignMode) -> Seq<char> {
    match m {
        SignMode::Unspecified => "SIGN_MODE_UNSPECIFIED"@,
        SignMode::Direct => "SIGN_MODE_DIRECT"@,
        SignMode::Textual => "SIGN_MODE_TEXTUAL"@,
        SignMode::DirectAux => "SIGN_MODE_DIRECT_AUX"@,
        SignMode::LegacyAminoJson => "SIGN_MODE_LEGACY_AMINO_JSON"@,
        SignMode::Eip191 => "SIGN_MODE_EIP_191"@,
    }
}

/// The number of a signing mode in the protobuf definition.
pub open spec fn sign_mode_code(m: SignMode) -> i32 {
    match m {
        SignMode::Unspecified => 0,
        SignMode::Direct => 1,
        SignMode::Textual => 2,
        SignMode::DirectAux => 3,
        SignMode::LegacyAminoJson => 127,
        SignMode::Eip191 => 191,
    }
}

/// Two strings with the same UTF-8 bytes are the same string.
proof fn lemma_same_bytes_same_chars(a: &str, b: &str)
    requires
        a.spec_bytes() == b.spec_bytes(),
    ensures
        a@ == b@,
{
    vstd::utf8::encode_utf8_decode_utf8(a@);
    vstd::utf8::encode_utf8_decode_utf8(b@);
}

/// Whether `value` spells `name`.
fn spells(value: &str, name: &str) -> (r: bool)
    ensures
        r == (value@ == name@),
{
    let r = bytes_eq(value.as_bytes(), name.as_bytes());
    proof {
        if r {
            lemma_same_bytes_same_chars(value, name);
        }
    }
    r
}

impl SignMode {
    /// The name of the mode in the protobuf definition.
    pub fn as_str_name(&self) -> (r: &'static str)
        ensures
            r@ == sign_mode_name(*self),
    {
        match self {
            SignMode::Unspecified => "SIGN_MODE_UNSPECIFIED",
            SignMode::Direct => "SIGN_MODE_DIRECT",
            SignMode::Textual => "SIGN_MODE_TEXTUAL",
            SignMode::DirectAux => "SIGN_MODE_DIRECT_AUX",
            SignMode::LegacyAminoJson => "SIGN_MODE_LEGACY_AMINO_JSON",
            SignMode::Eip191 => "SIGN_MODE_EIP_191",
        }
    }

    /// The mode whose protobuf name is `value`, if any.
    pub fn from_str_name(value: &str) -> (r: Option<SignMode>)
        ensures
            r matches Some(m) ==> value@ == sign_mode_name(m),
            r is None ==> forall|m: SignMode| value@ != #[trigger] sign_mode_name(m),
    {
        if spells(value, "SIGN_MODE_UNSPECIFIED") {
            Some(SignMode::Unspecified)
        } else if spells(value, "SIGN_MODE_DIRECT") {
            Some(SignMode::Direct)
        } else if spells(value, "SIGN_MODE_TEXTUAL") {
            Some(SignMode::Textual)
        } else if spells(value, "SIGN_MODE_DIRECT_AUX") {
            Some(SignMode::DirectAux)
        } else if spells(value, "SIGN_MODE_LEGACY_AMINO_JSON") {
            Some(SignMode::LegacyAminoJson)
        } else if spells(value, "SIGN_MODE_EIP_191") {
            Some(SignMode::Eip191)
        } else {
            None
        }
    }

    /// The number of the mode in the protobuf definition.
    pub fn as_i32(&self) -> (r: i32)
        ensures
            r == sign_mode_code(*self),
    {
        match self {
            SignMode::Unspecified => 0,
            SignMode::Direct => 1,
            SignMode::Textual => 2,
            SignMode::DirectAux => 3,
            SignMode::LegacyAminoJson => 127,
            SignMode::Eip191 => 191,
        }
    }

    /// The mode whose protobuf number is `value`, if any.
    pub fn from_i32(value: i32) -> (r: Option<SignMode>)
        ensures
            r matches Some(m) ==> sign_mode_code(m) == value,
            r is None ==> forall|m: SignMode| #[trigger] sign_mode_code(m) != value,
    {
        match value {
            0 => Some(SignMode::Unspecified),
            1 => Some(SignMode::Direct),
            2 => Some(SignMode::Textual),
            3 => Some(SignMode::DirectAux),
            127 => Some(SignMode::LegacyAminoJson),
            191 => Some(SignMode::Eip191),
            _ => None,
        }
    }

    /// Whether `value` is the number of a known mode.
    pub fn is_valid(value: i32) -> (r: bool)
        ensures
            r == exists|m: SignMode| #[trigger] sign_mode_code(m) == value,
    {
        let r = SignMode::from_i32(value);
        proof {
            if let Some(m) = r {
                assert(sign_mode_code(m) == value);
            }
        }
        r.is_some()
    }
}

impl Single {
    /// The signing mode, or `Unspecified` where the number is unknown.
    pub fn sign_mode(&self) -> (r: SignMode)
        ensures
            (exists|m: SignMode| #[trigger] sign_mode_code(m) == self.mode) ==> sign_mode_code(r)
                == self.mode,
            (forall|m: SignMode| #[trigger] sign_mode_code(m) != self.mode) ==> r
                == SignMode::Unspecified,
    {
        match SignMode::from_i32(self.mode) {
            Some(m) => m,
            None => SignMode::Unspecified,
        }
    }

    pub fn set_sign_mode(&mut self, mode: SignMode)
        ensures
            final(self).mode == sign_mode_code(mode),
            final(self).signature == old(self).signature,
    {
        self.mode = mode.as_i32();
    }

    /// The fully qualified protobuf name of the message.
    pub fn full_name() -> (r: String)
        ensures
            r@ == "cosmos.tx.signing.v1beta1.SignatureDescriptor.Data.Single"@,
    {
        "cosmos.tx.signing.v1beta1.SignatureDescriptor.Data.Single".to_owned()
    }
}

} // verus!
