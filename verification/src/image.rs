//! Putting a packaged executable together.

use vstd::prelude::*;

use crate::codec::{encode, encoded_texts, lengths_fit};
use crate::format::{trailer_of, Metadata, MetadataText, Trailer, TrailerError, TRAILER_SIZE};

verus! {

/// The trailer of an executable made of parts with these lengths.
pub open spec fn trailer_for(launcher: nat, erts: nat, app: nat) -> Trailer {
    Trailer {
        erts_offset: launcher as u64,
        app_offset: (launcher + erts) as u64,
        meta_offset: (launcher + erts + app) as u64,
    }
}

/// The bytes of a packaged executable: the launcher, the two archives, the metadata and the
/// trailer, with nothing between them.
pub open spec fn assembled(
    launcher: Seq<u8>,
    erts: Seq<u8>,
    app: Seq<u8>,
    metadata: MetadataText,
) -> Seq<u8> {
    launcher + erts + app + encoded_texts(metadata.texts()) + trailer_for(
        launcher.len(),
        erts.len(),
        app.len(),
    ).encoded()
}

/// Puts a packaged executable together.
pub fn assemble_binary(
    launcher: &[u8],
    erts_payload: &[u8],
    app_payload: &[u8],
    metadata: &Metadata,
) -> (r: Vec<u8>)
    ensures
        r@ == assembled(launcher@, erts_payload@, app_payload@, metadata@),
{
    let mut out: Vec<u8> = Vec::new();
    out.extend_from_slice(launcher);
    assert(out@ =~= launcher@);
    let erts: u64 = out.len() as u64;
    out.extend_from_slice(erts_payload);
    assert(out@ =~= launcher@ + erts_payload@);
    let app: u64 = out.len() as u64;
    out.extend_from_slice(app_payload);
    assert(out@ =~= launcher@ + erts_payload@ + app_payload@);
    let meta: u64 = out.len() as u64;
    let meta_bytes = encode(metadata);
    out.extend_from_slice(meta_bytes.as_slice());
    let trailer = Trailer { erts_offset: erts, app_offset: app, meta_offset: meta };
    trailer.write(&mut out);
    out
}

/// The trailer of an assembled executable is read back, and the metadata region that it marks
/// holds the metadata, whatever else was packed.
pub proof fn law_assembled_metadata(
    launcher: Seq<u8>,
    erts: Seq<u8>,
    app: Seq<u8>,
    metadata: MetadataText,
)
    requires
        lengths_fit(metadata.texts()),
        assembled(launcher, erts, app, metadata).len() <= u64::MAX,
    ensures
        ({
            let image = assembled(launcher, erts, app, metadata);
            let trailer = trailer_for(launcher.len(), erts.len(), app.len());
            let meta_end = image.len() - TRAILER_SIZE;
            &&& trailer_of(image) == Ok::<Trailer, TrailerError>(trailer)
            &&& trailer.meta_offset <= meta_end
            &&& crate::codec::decoded(image.subrange(trailer.meta_offset as int, meta_end)) == Some(
                metadata,
            )
        }),
{
    let image = assembled(launcher, erts, app, metadata);
    let trailer = trailer_for(launcher.len(), erts.len(), app.len());
    let meta = encoded_texts(metadata.texts());
    let body = launcher + erts + app + meta;
    crate::format::law_trailer_round_trip(body, trailer);
    let meta_end = image.len() - TRAILER_SIZE;
    assert(image.len() == body.len() + TRAILER_SIZE);
    assert(image.subrange(trailer.meta_offset as int, meta_end) =~= meta + Seq::<u8>::empty());
    crate::codec::law_metadata_round_trip(metadata, Seq::empty());
}

/// What was packed is found again: the trailer of an assembled executable is read back and
/// accepted, the regions it marks are the archives, and the metadata region holds the metadata.
pub proof fn law_assembled_reads_back(
    launcher: Seq<u8>,
    erts: Seq<u8>,
    app: Seq<u8>,
    metadata: MetadataText,
)
    requires
        erts.len() > 0,
        app.len() > 0,
        lengths_fit(metadata.texts()),
        assembled(launcher, erts, app, metadata).len() <= u64::MAX,
    ensures
        ({
            let image = assembled(launcher, erts, app, metadata);
            let trailer = trailer_for(launcher.len(), erts.len(), app.len());
            let meta_end = image.len() - TRAILER_SIZE;
            &&& trailer_of(image) == Ok::<Trailer, TrailerError>(trailer)
            &&& trailer.validity(image.len()) is Ok
            &&& image.subrange(0, trailer.erts_offset as int) == launcher
            &&& image.subrange(trailer.erts_offset as int, trailer.app_offset as int) == erts
            &&& image.subrange(trailer.app_offset as int, trailer.meta_offset as int) == app
            &&& crate::codec::decoded(image.subrange(trailer.meta_offset as int, meta_end)) == Some(
                metadata,
            )
        }),
{
    let image = assembled(launcher, erts, app, metadata);
    let trailer = trailer_for(launcher.len(), erts.len(), app.len());
    law_assembled_metadata(launcher, erts, app, metadata);
    crate::format::law_trailer_round_trip(Seq::empty(), trailer);
    assert(image.len() == launcher.len() + erts.len() + app.len() + encoded_texts(
        metadata.texts(),
    ).len() + TRAILER_SIZE);
    assert(image.subrange(0, trailer.erts_offset as int) =~= launcher);
    assert(image.subrange(trailer.erts_offset as int, trailer.app_offset as int) =~= erts);
    assert(image.subrange(trailer.app_offset as int, trailer.meta_offset as int) =~= app);
}

} // verus!
