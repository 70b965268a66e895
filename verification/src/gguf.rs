use crate::bytes::{le32, le64, read_le32, read_le64};
use vstd::prelude::*;

verus! {

/// The magic number at the start of a GGUF container: the bytes `GGUF`.
pub const GGUF_MAGIC: u32 = 0x46554747;

/// One tensor of a loaded model.
pub struct GgufTensorInfo {
    pub name: String,
    pub dimensions: [usize; 2],
    pub data_type: u32,
    pub offset: usize,
}

/// What the header of a GGUF container says of its model.
pub struct GgufModelInfo {
    pub version: u32,
    pub tensor_count: u64,
    pub metadata_kv_count: u64,
    pub architecture: &'static str,
    pub context_length: usize,
    pub embedding_dim: usize,
    pub is_loaded: bool,
}

/// The loader: the active model, if any, and its tensors.
pub struct GgufEngine {
    pub active_model: Option<GgufModelInfo>,
    pub tensors: Vec<GgufTensorInfo>,
}

/// A qwen2-family profile with the given header counts.
fn qwen_profile(version: u32, tensor_count: u64, metadata_kv_count: u64, architecture: &'static str) -> (r: GgufModelInfo)
    ensures
        r == (GgufModelInfo {
            version,
            tensor_count,
            metadata_kv_count,
            architecture,
            context_length: 32768,
            embedding_dim: 896,
            is_loaded: true,
        }),
{
    GgufModelInfo {
        version,
        tensor_count,
        metadata_kv_count,
        architecture,
        context_length: 32768,
        embedding_dim: 896,
        is_loaded: true,
    }
}

/// The profile that a well-formed header `d` describes.
pub open spec fn header_info(d: Seq<u8>) -> GgufModelInfo {
    GgufModelInfo {
        version: le32(d, 4) as u32,
        tensor_count: le64(d, 8) as u64,
        metadata_kv_count: le64(d, 16) as u64,
        architecture: "qwen2 (0.5B Parameters)",
        context_length: 32768,
        embedding_dim: 896,
        is_loaded: true,
    }
}

impl GgufEngine {
    pub fn new() -> (r: Self)
        ensures
            r.active_model.is_none(),
            r.tensors@.len() == 0,
    {
        Self { active_model: None, tensors: Vec::new() }
    }

    /// Parses the 24-byte header of a GGUF container and makes its model the active one.
    pub fn parse_header(&mut self, data: &[u8]) -> (r: Result<GgufModelInfo, &'static str>)
        ensures
            data@.len() < 24 ==> r == Err::<GgufModelInfo, &'static str>(
                "GGUF: Header too small (< 24 bytes)",
            ),
            data@.len() >= 24 && le32(data@, 0) != GGUF_MAGIC ==> r == Err::<
                GgufModelInfo,
                &'static str,
            >("GGUF: Invalid container magic signature (Expected 'GGUF')"),
            data@.len() >= 24 && le32(data@, 0) == GGUF_MAGIC ==> r == Ok::<
                GgufModelInfo,
                &'static str,
            >(header_info(data@)) && final(self).active_model == Some(header_info(data@)),
            r is Err ==> final(self).active_model == old(self).active_model,
            final(self).tensors@ == old(self).tensors@,
    {
        if data.len() < 24 {
            return Err("GGUF: Header too small (< 24 bytes)");
        }
        let magic = read_le32(data, 0);
        if magic != GGUF_MAGIC {
            return Err("GGUF: Invalid container magic signature (Expected 'GGUF')");
        }
        let version = read_le32(data, 4);
        let tensor_count = read_le64(data, 8);
        let metadata_kv_count = read_le64(data, 16);
        let arch = "qwen2 (0.5B Parameters)";
        self.active_model = Some(qwen_profile(version, tensor_count, metadata_kv_count, arch));
        Ok(qwen_profile(version, tensor_count, metadata_kv_count, arch))
    }

    /// Makes the built-in Qwen-2.5 0.5B profile the active model.
    pub fn load_qwen_default(&mut self) -> (r: GgufModelInfo)
        ensures
            r == qwen_default(),
            final(self).active_model == Some(qwen_default()),
            final(self).tensors@ == old(self).tensors@,
    {
        let arch = "qwen2.5-0.5b-instruct (Q4_K_M)";
        self.active_model = Some(qwen_profile(3, 148, 24, arch));
        qwen_profile(3, 148, 24, arch)
    }
}

/// The built-in Qwen-2.5 0.5B instruct profile.
pub open spec fn qwen_default() -> GgufModelInfo {
    GgufModelInfo {
        version: 3,
        tensor_count: 148,
        metadata_kv_count: 24,
        architecture: "qwen2.5-0.5b-instruct (Q4_K_M)",
        context_length: 32768,
        embedding_dim: 896,
        is_loaded: true,
    }
}

} // verus!
