# underskrift

The verified core of a PDF and CAdES signing library, written in Verus.

*Underskrift* is Swedish for *signature*.

## Layout

- `src/` — the library, every function of it verified:
  - `cms/` — DER reading and writing (`tlv`), DER `SET OF` ordering
    (`set_order`), the raw `SignedData` model (`signed_data`), CMS
    attributes (`attributes`), CAdES composition over an existing envelope
    (`cades`: timestamps, validation data, parallel signers,
    countersignatures) and the laws that composition keeps the signatures it
    does not touch (`preservation`).
  - `saci/` — the SACI authentication-context certificate extension
    (RFC 7773): its DER wrapping and its SAML XML.
  - `inspect/` — PDF inspection: revisions, indirect objects as JSON-shaped
    values, signature fields, byte-range coverage and the document security
    store.
  - `visual/` — standard-14 font metrics, PDF text encoding, appearance
    stream lines and image preparation.
  - `doc_mdp.rs` — certification (DocMDP) signatures.
  - `signer.rs` — signing options and writing the signature into the
    `/Contents` placeholder.
- `app/` — what works in floating point or needs serde_json and lopdf
  directly: appearance-stream geometry, the JSON form of an inspection, the
  signed percentage of a file and page dimensions.
- `tests/` — tests of the library on concrete values.

Calls into der, x509-cert, const-oid, lopdf, uppsala, image and hex stand
behind small trusted wrappers whose doc comments say what is claimed of
them.
