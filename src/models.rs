use vstd::prelude::*;

verus! {

/// Hub id of the UAE large model.
pub const UAE_LARGE_V1: &'static str = "WhereIsAI/UAE-Large-V1";

/// Hub id of the BGE large model, version 1.5.
pub const BGE_LARGE_V1_5: &'static str = "BAAI/bge-large-en-v1.5";

/// The embedding models that the pipeline can load.
#[derive(Debug, Clone, Copy, PartialEq, Eq, Structural)]
pub enum Model {
    UaeLargeV1,
    BgeLargeV15,
}

impl Default for Model {
    fn default() -> (r: Model)
        ensures
            r == Model::UaeLargeV1,
    {
        Model::UaeLargeV1
    }
}

impl Model {
    /// The model's repository id on the hub.
    pub fn repo_id(&self) -> (r: &'static str)
        ensures
            *self == Model::UaeLargeV1 ==> r@ == UAE_LARGE_V1@,
            *self == Model::BgeLargeV15 ==> r@ == BGE_LARGE_V1_5@,
    {
        match self {
            Model::UaeLargeV1 => UAE_LARGE_V1,
            Model::BgeLargeV15 => BGE_LARGE_V1_5,
        }
    }
}

} // verus!
