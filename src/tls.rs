//! The PEM texts that secure the transport.

use vstd::prelude::*;
use vstd::utf8::encode_utf8;

verus! {

/// The server's private key and certificate, as PEM texts.
pub struct Credentials {
    private_key: String,
    certificate: String,
}

impl Credentials {
    pub closed spec fn private_key_text(&self) -> Seq<char> {
        self.private_key@
    }

    pub closed spec fn certificate_text(&self) -> Seq<char> {
        self.certificate@
    }

    /// Credentials from the PEM texts of a private key and a certificate.
    pub fn from_pem(private_key: String, certificate: String) -> (r: Credentials)
        ensures
            r.private_key_text() == private_key@,
            r.certificate_text() == certificate@,
    {
        Credentials { private_key, certificate }
    }

    /// The bytes of the private key's PEM text.
    pub fn get_private_key(&self) -> (r: &[u8])
        ensures
            r@ == encode_utf8(self.private_key_text()),
    {
        self.private_key.as_str().as_bytes()
    }

    /// The bytes of the certificate's PEM text.
    pub fn get_certificate(&self) -> (r: &[u8])
        ensures
            r@ == encode_utf8(self.certificate_text()),
    {
        self.certificate.as_str().as_bytes()
    }
}

/// The certificate of the authority that clients trust, as a PEM text.
pub struct TrustStore {
    ca_cert: String,
}

impl TrustStore {
    pub closed spec fn ca_cert_text(&self) -> Seq<char> {
        self.ca_cert@
    }

    /// A trust store from the PEM text of a CA certificate.
    pub fn from_pem(ca_cert: String) -> (r: TrustStore)
        ensures
            r.ca_cert_text() == ca_cert@,
    {
        TrustStore { ca_cert }
    }

    /// The bytes of the CA certificate's PEM text.
    pub fn get_trusted_certificate(&self) -> (r: &[u8])
        ensures
            r@ == encode_utf8(self.ca_cert_text()),
    {
        self.ca_cert.as_str().as_bytes()
    }
}

} // verus!
