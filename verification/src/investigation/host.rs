//! What a host provides for the verification of bundles: it loads objects, reads JSON text,
//! decodes models, diagnoses draws, and computes.

use vstd::prelude::*;

use crate::data::DataValue;
#[allow(unused_imports)]
use crate::data::{data_views, DataModel};
use crate::error::Error;
#[allow(unused_imports)]
use crate::error::{outcome, Fault};
use crate::ir::ModelMeta;
#[allow(unused_imports)]
use crate::ir::MetaModel;
use crate::json::Value;
#[allow(unused_imports)]
use crate::json::Json;
#[allow(unused_imports)]
use crate::model::all_filled;
use crate::numerics::Arithmetic;
use crate::posterior::Posterior;
#[allow(unused_imports)]
use crate::posterior::binds;


#[allow(unused_imports)]
use super::fields::verdict;
use super::identity::Digest;
#[allow(unused_imports)]
use super::manifest::reads;
#[allow(unused_imports)]
use super::samples::packing_views;

verus! {

/// The services of a host.
pub struct Host<L, R, D, G, A> {
    /// The bytes of an object.
    pub load: L,
    /// JSON text as a document.
    pub read_json: R,
    /// A document as a model.
    pub decode_model: D,
    /// Whether a stream of draws can be diagnosed.
    pub diagnose: G,
    /// Operations on tensors.
    pub ops: A,
}

/// What the services of a host can come to, on which contents.
pub struct World {
    pub loads: spec_fn(Seq<char>, Result<Seq<u8>, Fault>) -> bool,
    pub reads: spec_fn(Seq<char>, Result<Json, Fault>) -> bool,
    pub decodes: spec_fn(Json, Result<MetaModel, Fault>) -> bool,
    pub diagnoses: spec_fn(Seq<char>, Result<(), Fault>) -> bool,
    pub packs: spec_fn(
        MetaModel,
        Seq<(Seq<char>, DataModel)>,
        Result<Seq<(Seq<char>, Seq<usize>)>, Fault>,
    ) -> bool,
}

/// Whether loading an object can come to that.
pub open spec fn loads<L: Fn(&Digest) -> Result<Vec<u8>, Error>>(
    load: L,
    digest: Seq<char>,
    bytes: Result<Seq<u8>, Fault>,
) -> bool {
    exists|d: &Digest, r: Result<Vec<u8>, Error>|
        d@ == digest && #[trigger] call_ensures(load, (d,), r) && outcome(r) == bytes
}

/// Whether decoding a model can come to that.
pub open spec fn decodes<D: Fn(&Value) -> Result<ModelMeta, Error>>(
    decode_model: D,
    document: Json,
    meta: Result<MetaModel, Fault>,
) -> bool {
    exists|v: &Value, r: Result<ModelMeta, Error>|
        v@ == document && #[trigger] call_ensures(decode_model, (v,), r) && outcome(r) == meta
}

/// Whether diagnosing a stream of draws can come to that.
pub open spec fn diagnoses<G: Fn(&str) -> Result<(), Error>>(
    diagnose: G,
    text: Seq<char>,
    out: Result<(), Fault>,
) -> bool {
    exists|s: &str, r: Result<(), Error>|
        s@ == text && #[trigger] call_ensures(diagnose, (s,), r) && verdict(r) == out
}

/// The packing that binding a model came to.
pub open spec fn packing_of(r: Result<Posterior, Error>) -> Result<
    Seq<(Seq<char>, Seq<usize>)>,
    Fault,
> {
    match r {
        Ok(p) => Ok(Seq::new(p.free@.len(), |i: int| (p.free@[i].name@, p.free@[i].shape@))),
        Err(error) => Err(error@),
    }
}

/// The view of a packing.
pub open spec fn packing_outcome(r: Result<Vec<(String, Vec<usize>)>, Error>) -> Result<
    Seq<(Seq<char>, Seq<usize>)>,
    Fault,
> {
    match r {
        Ok(packing) => Ok(packing_views(packing@)),
        Err(error) => Err(error@),
    }
}

/// Whether binding a model to data can come to that packing.
pub open spec fn packs<A: Arithmetic>(
    ops: &A,
    meta: MetaModel,
    data: Seq<(Seq<char>, DataModel)>,
    out: Result<Seq<(Seq<char>, Seq<usize>)>, Fault>,
) -> bool {
    exists|r: Result<Posterior, Error>| #[trigger]
        binds(ops, meta, data, r) && packing_of(r) == out
}

impl<
    L: Fn(&Digest) -> Result<Vec<u8>, Error>,
    R: Fn(&str) -> Result<Value, Error>,
    D: Fn(&Value) -> Result<ModelMeta, Error>,
    G: Fn(&str) -> Result<(), Error>,
    A: Arithmetic,
> Host<L, R, D, G, A> {
    /// What the services can come to.
    pub open spec fn world(self) -> World {
        World {
            loads: |digest: Seq<char>, bytes: Result<Seq<u8>, Fault>| loads(self.load, digest, bytes),
            reads: |text: Seq<char>, document: Result<Json, Fault>|
                reads(self.read_json, text, document),
            decodes: |document: Json, meta: Result<MetaModel, Fault>|
                decodes(self.decode_model, document, meta),
            diagnoses: |text: Seq<char>, out: Result<(), Fault>|
                diagnoses(self.diagnose, text, out),
            packs: |
                meta: MetaModel,
                data: Seq<(Seq<char>, DataModel)>,
                out: Result<Seq<(Seq<char>, Seq<usize>)>, Fault>,
            | packs(&self.ops, meta, data, out),
        }
    }

    /// Whether each service can be called on everything.
    pub open spec fn usable(self) -> bool {
        &&& forall|d: &Digest| #[trigger] call_requires(self.load, (d,))
        &&& forall|s: &str| #[trigger] call_requires(self.read_json, (s,))
        &&& forall|v: &Value| #[trigger] call_requires(self.decode_model, (v,))
        &&& forall|s: &str| #[trigger] call_requires(self.diagnose, (s,))
        &&& self.ops.reliable()
    }

    pub fn load_object(&self, digest: &Digest) -> (r: Result<Vec<u8>, Error>)
        requires
            self.usable(),
        ensures
            (self.world().loads)(digest@, outcome(r)),
    {
        let r: Result<Vec<u8>, Error> = (self.load)(digest);
        assert(loads(self.load, digest@, outcome(r)));
        r
    }

    pub fn read(&self, s: &str) -> (r: Result<Value, Error>)
        requires
            self.usable(),
        ensures
            (self.world().reads)(s@, outcome(r)),
    {
        let r: Result<Value, Error> = (self.read_json)(s);
        assert(reads(self.read_json, s@, outcome(r)));
        r
    }

    pub fn decode(&self, document: &Value) -> (r: Result<ModelMeta, Error>)
        requires
            self.usable(),
        ensures
            (self.world().decodes)(document@, outcome(r)),
    {
        let r: Result<ModelMeta, Error> = (self.decode_model)(document);
        assert(decodes(self.decode_model, document@, outcome(r)));
        r
    }

    pub fn diagnose_draws(&self, s: &str) -> (r: Result<(), Error>)
        requires
            self.usable(),
        ensures
            (self.world().diagnoses)(s@, verdict(r)),
    {
        let r: Result<(), Error> = (self.diagnose)(s);
        assert(diagnoses(self.diagnose, s@, verdict(r)));
        r
    }

    /// The packing of a model over data.
    pub fn packing(&self, meta: ModelMeta, data: Vec<(String, DataValue)>) -> (r: Result<
        Vec<(String, Vec<usize>)>,
        Error,
    >)
        requires
            self.usable(),
            all_filled(data_views(data@)),
        ensures
            (self.world().packs)(meta@, data_views(data@), packing_outcome(r)),
    {
        let ghost m = meta@;
        let ghost content = data_views(data@);
        let bound: Result<Posterior, Error> = Posterior::new(meta, data, &self.ops);
        assert(binds(&self.ops, m, content, bound));
        assert(packs(&self.ops, m, content, packing_of(bound)));
        match bound {
            Err(error) => Err(error),
            Ok(posterior) => {
                let out: Vec<(String, Vec<usize>)> = posterior.packing();
                assert(packing_views(out@) =~= packing_of(Ok(posterior))->Ok_0);
                Ok(out)
            },
        }
    }
}

} // verus!
