//! Whether the bytes of an artifact are what its kind promises.

use vstd::prelude::*;

use crate::data::data_from_json;
#[allow(unused_imports)]
use crate::data::{data_views, law_read_data_is_filled, read_data};
use crate::error::{malformed, Error};
#[allow(unused_imports)]
use crate::error::{malformed_fault, outcome, Fault};
use crate::fingerprint::model_data_fingerprint;
#[allow(unused_imports)]
use crate::fingerprint::{fingerprint_message, rendered_digest, sha256};
use crate::ir::ModelMeta;
#[allow(unused_imports)]
use crate::ir::MetaModel;
use crate::json::Value;
use crate::numerics::Arithmetic;
#[allow(unused_imports)]
use crate::json::Json;
use crate::lines::lines;
#[allow(unused_imports)]
use crate::lines::lines_of;
use crate::text;
#[allow(unused_imports)]
use crate::text::{decimal_text, text_views};

use super::documents::{check_document, check_inspection, check_marker, reject_duplicate_json_fields};
#[allow(unused_imports)]
use super::documents::{
    document_complaint, inspection_document_complaint, marker_complaint, repetition_complaint,
};
#[allow(unused_imports)]
use super::fields::{judged, verdict};
use super::host::Host;
#[allow(unused_imports)]
use super::host::{packing_outcome, World};
use super::identity::Digest;
use super::records::{ArtifactKind, ArtifactRef};
use super::samples::{check_sample_header, check_sample_layout};
#[allow(unused_imports)]
use super::samples::{header_complaint, layout_complaint};

#[allow(unused_imports)]
use vstd::utf8::{decode_utf8, valid_utf8};

verus! {

/// A result without its value.
pub open spec fn settled<T>(r: Result<T, Fault>) -> Result<(), Fault> {
    match r {
        Ok(_) => Ok(()),
        Err(fault) => Err(fault),
    }
}

/// Whether bytes can be read as that document.
pub open spec fn bytes_read(
    world: World,
    bytes: Seq<u8>,
    context: Seq<char>,
    document: Result<Json, Fault>,
) -> bool {
    if !valid_utf8(bytes) {
        document == Err::<Json, Fault>(malformed_fault(context + " must be UTF-8 JSON"@))
    } else {
        (world.reads)(decode_utf8(bytes), document)
    }
}

/// What a document comes to that gets this complaint.
pub open spec fn document_verdict(
    document: Result<Json, Fault>,
    complaint: spec_fn(Json) -> Option<Seq<char>>,
) -> Result<(), Fault> {
    match document {
        Err(fault) => Err(fault),
        Ok(v) => judged(complaint(v)),
    }
}

/// Whether the bytes of a model can come to that.
pub open spec fn model_accepted(world: World, bytes: Seq<u8>, out: Result<(), Fault>) -> bool {
    exists|document: Result<Json, Fault>| #[trigger]
        bytes_read(world, bytes, "model_ir artifact"@, document) && {
            let seen = document_verdict(document, |v: Json| document_complaint(v, "model_ir artifact"@));
            match seen {
                Err(fault) => out == Err::<(), Fault>(fault),
                Ok(_) => exists|meta: Result<MetaModel, Fault>| #[trigger]
                    (world.decodes)(document->Ok_0, meta) && out == settled(meta),
            }
        }
}

/// Whether the bytes of data can come to that.
pub open spec fn data_accepted(world: World, bytes: Seq<u8>, out: Result<(), Fault>) -> bool {
    exists|document: Result<Json, Fault>| #[trigger]
        bytes_read(world, bytes, "data artifact"@, document) && {
            let seen = document_verdict(document, |v: Json| document_complaint(v, "data artifact"@));
            match seen {
                Err(fault) => out == Err::<(), Fault>(fault),
                Ok(_) => out == settled(read_data(document->Ok_0)),
            }
        }
}

/// Whether the bytes of an inspection can come to that.
pub open spec fn inspection_accepted(world: World, bytes: Seq<u8>, out: Result<(), Fault>) -> bool {
    exists|document: Result<Json, Fault>| #[trigger]
        bytes_read(world, bytes, "inspection artifact"@, document) && out == document_verdict(
            document,
            |v: Json| inspection_document_complaint(v),
        )
}

/// Whether the bytes of a document with a format marker can come to that.
pub open spec fn marker_accepted(
    world: World,
    bytes: Seq<u8>,
    name: Seq<char>,
    out: Result<(), Fault>,
) -> bool {
    exists|document: Result<Json, Fault>| #[trigger]
        bytes_read(world, bytes, "artifact carrying "@ + name, document) && out == document_verdict(
            document,
            |v: Json| marker_complaint(v, name),
        )
}

/// What a line of draws comes to, by what it was read as.
pub open spec fn line_verdict(document: Result<Json, Fault>, index: nat) -> Result<(), Fault> {
    document_verdict(
        document,
        |v: Json| repetition_complaint(v, "posterior_draws line "@ + decimal_text(index)),
    )
}

/// Whether the lines of a stream of draws can come to that.
pub open spec fn lines_accepted(world: World, all: Seq<Seq<char>>, out: Result<(), Fault>) -> bool
    decreases all.len(),
{
    if all.len() == 0 {
        out == Ok::<(), Fault>(())
    } else {
        ||| out is Err && lines_accepted(world, all.drop_last(), out)
        ||| lines_accepted(world, all.drop_last(), Ok(())) && exists|document: Result<Json, Fault>|
            #[trigger]
            (world.reads)(all.last(), document) && out == line_verdict(
                document,
                (all.len() - 1) as nat,
            )
    }
}

proof fn lemma_lines_failed(world: World, all: Seq<Seq<char>>, n: int, fault: Fault)
    requires
        0 <= n <= all.len(),
        lines_accepted(world, all.take(n), Err(fault)),
    ensures
        lines_accepted(world, all, Err(fault)),
    decreases all.len(),
{
    if n < all.len() {
        assert(all.drop_last().take(n) =~= all.take(n));
        lemma_lines_failed(world, all.drop_last(), n, fault);
    } else {
        assert(all.take(n) =~= all);
    }
}

/// Whether the bytes of draws can come to that.
pub open spec fn draws_accepted(world: World, bytes: Seq<u8>, out: Result<(), Fault>) -> bool {
    if !valid_utf8(bytes) {
        out == Err::<(), Fault>(
            malformed_fault("posterior_draws artifact must be UTF-8 NDJSON"@),
        )
    } else {
        exists|seen: Result<(), Fault>| #[trigger]
            lines_accepted(world, lines_of(decode_utf8(bytes)), seen) && match seen {
                Err(fault) => out == Err::<(), Fault>(fault),
                Ok(_) => (world.diagnoses)(decode_utf8(bytes), out),
            }
    }
}

/// Whether the bytes of an artifact of that kind can come to that.
pub open spec fn artifact_accepted(
    world: World,
    kind: ArtifactKind,
    bytes: Seq<u8>,
    out: Result<(), Fault>,
) -> bool {
    match kind {
        ArtifactKind::ModelIr => model_accepted(world, bytes, out),
        ArtifactKind::Data => data_accepted(world, bytes, out),
        ArtifactKind::Inspection => inspection_accepted(world, bytes, out),
        ArtifactKind::PosteriorDraws => draws_accepted(world, bytes, out),
        ArtifactKind::Diagnostics => marker_accepted(world, bytes, "diagnostics_format"@, out),
        ArtifactKind::PosteriorCheck => marker_accepted(
            world,
            bytes,
            "posterior_check_format"@,
            out,
        ),
        ArtifactKind::EngineCapabilities => marker_accepted(
            world,
            bytes,
            "capabilities_format"@,
            out,
        ),
        ArtifactKind::ReplayReport => marker_accepted(world, bytes, "replay_format"@, out),
        ArtifactKind::EngineBinary | ArtifactKind::InvestigationManifest => out == Ok::<(), Fault>(
            (),
        ),
    }
}

/// Whether the packing of a recipe's model over its data can come to that.
pub open spec fn recipe_packing(
    world: World,
    model: Seq<char>,
    data: Seq<char>,
    out: Result<Seq<(Seq<char>, Seq<usize>)>, Fault>,
) -> bool {
    exists|document: Result<Json, Fault>| #[trigger]
        (world.reads)(model, document) && match document {
            Err(fault) => out == Err::<Seq<(Seq<char>, Seq<usize>)>, Fault>(fault),
            Ok(v) => exists|meta: Result<MetaModel, Fault>| #[trigger]
                (world.decodes)(v, meta) && match meta {
                    Err(fault) => out == Err::<Seq<(Seq<char>, Seq<usize>)>, Fault>(fault),
                    Ok(m) => data_packing(world, m, data, out),
                },
        }
}

/// Whether the packing of a model over data in text can come to that.
pub open spec fn data_packing(
    world: World,
    meta: MetaModel,
    data: Seq<char>,
    out: Result<Seq<(Seq<char>, Seq<usize>)>, Fault>,
) -> bool {
    exists|document: Result<Json, Fault>| #[trigger]
        (world.reads)(data, document) && match document {
            Err(fault) => out == Err::<Seq<(Seq<char>, Seq<usize>)>, Fault>(fault),
            Ok(v) => match read_data(v) {
                Err(fault) => out == Err::<Seq<(Seq<char>, Seq<usize>)>, Fault>(fault),
                Ok(bound) => (world.packs)(meta, bound, out),
            },
        }
}

/// Whether a sample output with that header can come to that, held against its recipe.
pub open spec fn header_accepted(
    world: World,
    header: Json,
    settings: Json,
    model: Seq<char>,
    data: Seq<char>,
    execution: Seq<char>,
    out: Result<(), Fault>,
) -> bool {
    let expected = rendered_digest(sha256(fingerprint_message(model, data)));
    match header_complaint(header, settings, expected, execution) {
        Some(message) => out == Err::<(), Fault>(malformed_fault(message)),
        None => exists|packing: Result<Seq<(Seq<char>, Seq<usize>)>, Fault>| #[trigger]
            recipe_packing(world, model, data, packing) && match packing {
                Err(fault) => out == Err::<(), Fault>(fault),
                Ok(slots) => out == judged(layout_complaint(header, slots, execution)),
            },
    }
}

/// Whether a sample output can come to that, held against the exact inputs and the settings of
/// its recipe.
pub open spec fn sample_accepted(
    world: World,
    model: Seq<u8>,
    data: Seq<u8>,
    fit: Seq<u8>,
    settings: Json,
    execution: Seq<char>,
    out: Result<(), Fault>,
) -> bool {
    if !valid_utf8(model) {
        out == Err::<(), Fault>(malformed_fault("sample recipe model must be UTF-8"@))
    } else if !valid_utf8(data) {
        out == Err::<(), Fault>(malformed_fault("sample recipe data must be UTF-8"@))
    } else if !valid_utf8(fit) {
        out == Err::<(), Fault>(malformed_fault("sample output must be UTF-8 NDJSON"@))
    } else if lines_of(decode_utf8(fit)).len() == 0 {
        out == Err::<(), Fault>(malformed_fault("sample output is empty"@))
    } else {
        exists|header: Result<Json, Fault>| #[trigger]
            (world.reads)(lines_of(decode_utf8(fit))[0], header) && match header {
                Err(fault) => out == Err::<(), Fault>(fault),
                Ok(h) => header_accepted(
                    world,
                    h,
                    settings,
                    decode_utf8(model),
                    decode_utf8(data),
                    execution,
                    out,
                ),
            }
    }
}

impl<
    L: Fn(&Digest) -> Result<Vec<u8>, Error>,
    R: Fn(&str) -> Result<Value, Error>,
    D: Fn(&Value) -> Result<ModelMeta, Error>,
    G: Fn(&str) -> Result<(), Error>,
    A: Arithmetic,
> Host<L, R, D, G, A> {
    /// Reads bytes as a document.
    fn read_bytes(&self, bytes: &[u8], context: &str) -> (r: Result<Value, Error>)
        requires
            self.usable(),
        ensures
            bytes_read(self.world(), bytes@, context@, outcome(r)),
    {
        match text::utf8_text(bytes) {
            None => Err(malformed(text::cat2(context, " must be UTF-8 JSON"))),
            Some(s) => self.read(s),
        }
    }

    fn accept_model(&self, bytes: &[u8]) -> (r: Result<(), Error>)
        requires
            self.usable(),
        ensures
            model_accepted(self.world(), bytes@, verdict(r)),
    {
        let read: Result<Value, Error> = self.read_bytes(bytes, "model_ir artifact");
        assert(bytes_read(self.world(), bytes@, "model_ir artifact"@, outcome(read)));
        let value: Value = match read {
            Err(error) => {
                return Err(error);
            },
            Ok(value) => value,
        };
        check_document(&value, "model_ir artifact")?;
        let meta: Result<ModelMeta, Error> = self.decode(&value);
        assert((self.world().decodes)(value@, outcome(meta)));
        match meta {
            Ok(_) => Ok(()),
            Err(error) => Err(error),
        }
    }

    fn accept_data(&self, bytes: &[u8]) -> (r: Result<(), Error>)
        requires
            self.usable(),
        ensures
            data_accepted(self.world(), bytes@, verdict(r)),
    {
        let read: Result<Value, Error> = self.read_bytes(bytes, "data artifact");
        assert(bytes_read(self.world(), bytes@, "data artifact"@, outcome(read)));
        let value: Value = match read {
            Err(error) => {
                return Err(error);
            },
            Ok(value) => value,
        };
        check_document(&value, "data artifact")?;
        match data_from_json(&value) {
            Ok(_) => Ok(()),
            Err(error) => Err(error),
        }
    }

    fn accept_inspection(&self, bytes: &[u8]) -> (r: Result<(), Error>)
        requires
            self.usable(),
        ensures
            inspection_accepted(self.world(), bytes@, verdict(r)),
    {
        let read: Result<Value, Error> = self.read_bytes(bytes, "inspection artifact");
        assert(bytes_read(self.world(), bytes@, "inspection artifact"@, outcome(read)));
        match read {
            Err(error) => Err(error),
            Ok(value) => check_inspection(&value),
        }
    }

    fn accept_marked(&self, bytes: &[u8], name: &str) -> (r: Result<(), Error>)
        requires
            self.usable(),
        ensures
            marker_accepted(self.world(), bytes@, name@, verdict(r)),
    {
        let context: String = text::cat2("artifact carrying ", name);
        let read: Result<Value, Error> = self.read_bytes(bytes, context.as_str());
        assert(bytes_read(self.world(), bytes@, "artifact carrying "@ + name@, outcome(read)));
        match read {
            Err(error) => Err(error),
            Ok(value) => check_marker(&value, name),
        }
    }

    fn accept_lines(&self, all: &Vec<String>) -> (r: Result<(), Error>)
        requires
            self.usable(),
        ensures
            lines_accepted(self.world(), text_views(all@), verdict(r)),
    {
        let ghost world = self.world();
        let ghost texts = text_views(all@);
        let mut i: usize = 0;
        while i < all.len()
            invariant
                i <= all.len(),
                self.usable(),
                world == self.world(),
                texts == text_views(all@),
                lines_accepted(world, texts.take(i as int), Ok(())),
            decreases all.len() - i,
        {
            let ghost done = texts.take(i + 1);
            proof {
                assert(done.drop_last() =~= texts.take(i as int));
                assert(done.last() == all@[i as int]@);
                assert(lines_accepted(world, done.drop_last(), Ok(())));
            }
            let read: Result<Value, Error> = self.read(all[i].as_str());
            assert((world.reads)(done.last(), outcome(read)));
            let seen: Result<(), Error> = match read {
                Err(error) => Err(error),
                Ok(value) => {
                    let place: String = text::decimal(i as u64);
                    let context: String = text::cat2("posterior_draws line ", place.as_str());
                    reject_duplicate_json_fields(&value, context.as_str())
                },
            };
            assert(verdict(seen) == line_verdict(outcome(read), i as nat));
            assert(lines_accepted(world, done, verdict(seen)));
            if let Err(error) = seen {
                proof {
                    lemma_lines_failed(world, texts, i + 1, error@);
                }
                return Err(error);
            }
            i += 1;
        }
        assert(texts.take(i as int) =~= texts);
        Ok(())
    }

    fn accept_draws(&self, bytes: &[u8]) -> (r: Result<(), Error>)
        requires
            self.usable(),
        ensures
            draws_accepted(self.world(), bytes@, verdict(r)),
    {
        match text::utf8_text(bytes) {
            None => Err(malformed("posterior_draws artifact must be UTF-8 NDJSON".to_owned())),
            Some(s) => {
                let all: Vec<String> = lines(s);
                let seen: Result<(), Error> = self.accept_lines(&all);
                assert(lines_accepted(self.world(), lines_of(decode_utf8(bytes@)), verdict(seen)));
                match seen {
                    Err(error) => Err(error),
                    Ok(_) => self.diagnose_draws(s),
                }
            },
        }
    }

    /// Holds the bytes of an artifact to what its kind promises.
    pub fn validate_artifact(&self, reference: &ArtifactRef, bytes: &[u8]) -> (r: Result<(), Error>)
        requires
            self.usable(),
        ensures
            artifact_accepted(self.world(), reference.kind, bytes@, verdict(r)),
    {
        match reference.kind {
            ArtifactKind::ModelIr => self.accept_model(bytes),
            ArtifactKind::Data => self.accept_data(bytes),
            ArtifactKind::Inspection => self.accept_inspection(bytes),
            ArtifactKind::PosteriorDraws => self.accept_draws(bytes),
            ArtifactKind::Diagnostics => self.accept_marked(bytes, "diagnostics_format"),
            ArtifactKind::PosteriorCheck => self.accept_marked(bytes, "posterior_check_format"),
            ArtifactKind::EngineCapabilities => self.accept_marked(bytes, "capabilities_format"),
            ArtifactKind::ReplayReport => self.accept_marked(bytes, "replay_format"),
            ArtifactKind::EngineBinary | ArtifactKind::InvestigationManifest => Ok(()),
        }
    }

    fn pack_recipe(&self, model: &str, data: &str) -> (r: Result<Vec<(String, Vec<usize>)>, Error>)
        requires
            self.usable(),
        ensures
            recipe_packing(self.world(), model@, data@, packing_outcome(r)),
    {
        let ghost world = self.world();
        let read: Result<Value, Error> = self.read(model);
        assert((world.reads)(model@, outcome(read)));
        let document: Value = match read {
            Err(error) => {
                return Err(error);
            },
            Ok(value) => value,
        };
        let decoded: Result<ModelMeta, Error> = self.decode(&document);
        assert((world.decodes)(document@, outcome(decoded)));
        let meta: ModelMeta = match decoded {
            Err(error) => {
                return Err(error);
            },
            Ok(meta) => meta,
        };
        let ghost m = meta@;
        let r: Result<Vec<(String, Vec<usize>)>, Error> = self.pack_data(meta, data);
        assert(data_packing(world, m, data@, packing_outcome(r)));
        r
    }

    fn pack_data(&self, meta: ModelMeta, data: &str) -> (r: Result<
        Vec<(String, Vec<usize>)>,
        Error,
    >)
        requires
            self.usable(),
        ensures
            data_packing(self.world(), meta@, data@, packing_outcome(r)),
    {
        let ghost world = self.world();
        let read: Result<Value, Error> = self.read(data);
        assert((world.reads)(data@, outcome(read)));
        let document: Value = match read {
            Err(error) => {
                return Err(error);
            },
            Ok(value) => value,
        };
        match data_from_json(&document) {
            Err(error) => Err(error),
            Ok(bound) => {
                proof {
                    law_read_data_is_filled(document@);
                    assert(read_data(document@)->Ok_0 == data_views(bound@));
                }
                self.packing(meta, bound)
            },
        }
    }

    /// Holds a sample output against the exact inputs and the settings of its recipe.
    pub fn validate_sample(
        &self,
        model: &[u8],
        data: &[u8],
        fit: &[u8],
        settings: &Value,
        execution: &str,
    ) -> (r: Result<(), Error>)
        requires
            self.usable(),
        ensures
            sample_accepted(
                self.world(),
                model@,
                data@,
                fit@,
                settings@,
                execution@,
                verdict(r),
            ),
    {
        let ghost world = self.world();
        let model_text: &str = match text::utf8_text(model) {
            None => {
                return Err(malformed("sample recipe model must be UTF-8".to_owned()));
            },
            Some(s) => s,
        };
        let data_text: &str = match text::utf8_text(data) {
            None => {
                return Err(malformed("sample recipe data must be UTF-8".to_owned()));
            },
            Some(s) => s,
        };
        let fit_text: &str = match text::utf8_text(fit) {
            None => {
                return Err(malformed("sample output must be UTF-8 NDJSON".to_owned()));
            },
            Some(s) => s,
        };
        let all: Vec<String> = lines(fit_text);
        assert(text_views(all@).len() == all.len());
        if all.len() == 0 {
            return Err(malformed("sample output is empty".to_owned()));
        }
        assert(text_views(all@)[0] == all@[0]@);
        let read: Result<Value, Error> = self.read(all[0].as_str());
        assert((world.reads)(lines_of(decode_utf8(fit@))[0], outcome(read)));
        let header: Value = match read {
            Err(error) => {
                return Err(error);
            },
            Ok(value) => value,
        };
        let expected: String = model_data_fingerprint(model_text, data_text);
        check_sample_header(&header, settings, expected.as_str(), execution)?;
        let packed: Result<Vec<(String, Vec<usize>)>, Error> = self.pack_recipe(model_text, data_text);
        assert(recipe_packing(world, model_text@, data_text@, packing_outcome(packed)));
        match packed {
            Err(error) => Err(error),
            Ok(packing) => check_sample_layout(&header, &packing, execution),
        }
    }
}

} // verus!
