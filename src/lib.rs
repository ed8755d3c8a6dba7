//! Byte-level tokenizer core: chunk planning, tokenization strategies and the
//! ordering logic of the concurrent chunk pipeline.

pub mod chunking;
pub mod config_loader;
pub mod io_handler;
pub mod merges;
pub mod pipeline;
pub mod tokenizer;
pub mod utils;

use crate::config_loader::{merges_of_text, parse_bpe_merges, MergeRulesError};
use crate::merges::BpeMerges;
use crate::tokenizer::{
    BasicTokenizationStrategy, BpeStrategy, ChunkError, PassthroughStrategy, TokenizationStrategy,
};
use crate::utils::{chunk_size_value, parse_chunk_size_str, trim_ws, ChunkSizeError};
use std::path::PathBuf;
use std::sync::Arc;
use vstd::prelude::*;
use vstd::string::StringSliceAdditionalSpecFns;
use vstd::utf8::encode_utf8;

verus! {

/// The kind of content being tokenized; a marker token for it may open the output.
#[derive(Clone, Copy, Debug, PartialEq, Eq, Structural)]
pub enum ContentType {
    /// Plain text content.
    Text,
    /// Audio data.
    Audio,
    /// Generic binary data.
    Bin,
    /// Video data.
    Video,
}

/// The reserved marker token of each content type.
pub open spec fn content_token(ct: ContentType) -> u16 {
    match ct {
        ContentType::Text => 0xFF01,
        ContentType::Audio => 0xFF02,
        ContentType::Bin => 0xFF03,
        ContentType::Video => 0xFF04,
    }
}

impl ContentType {
    /// Returns the marker token of this content type, from the reserved range 0xFF01..=0xFF04.
    pub fn get_token_value(&self) -> (r: u16)
        ensures
            r == content_token(*self),
    {
        match self {
            ContentType::Text => 0xFF01,
            ContentType::Audio => 0xFF02,
            ContentType::Bin => 0xFF03,
            ContentType::Video => 0xFF04,
        }
    }
}


#[verifier::external_type_specification]
#[verifier::external_body]
pub struct ExPathBuf(PathBuf);

/// The memory cap used when none is given, in percent of installed RAM.
pub const DEFAULT_MEM_CAP_PERCENT: u8 = 80;

/// Everything that controls one run.
pub struct CoreConfig {
    /// The input file; `None` reads standard input.
    pub input: Option<PathBuf>,
    /// The output file; `None` writes to standard output.
    pub output: Option<PathBuf>,
    /// Where the merge rules came from, if any were given.
    pub merges_file: Option<PathBuf>,
    /// The content type whose marker opens the output, if any.
    pub content_type: Option<ContentType>,
    /// How many chunks may be in flight at once (at least 1).
    pub num_threads: usize,
    /// An explicit chunk size in bytes.
    pub cli_chunk_size: Option<usize>,
    /// The share of installed RAM, in percent (0 to 100), that chunk buffers may use.
    pub mem_cap_percent: u8,
    /// The merge table; with one, chunks are byte-pair merged.
    pub bpe_data: Option<Arc<BpeMerges>>,
    /// Copy the input unchanged when there is no merge table.
    pub passthrough: bool,
}

/// Why a configuration was refused.
#[derive(Clone, Copy, Debug, PartialEq, Eq, Structural)]
pub enum ConfigError {
    /// The chunk-size text could not be read.
    InvalidChunkSize(ChunkSizeError),
    /// The memory cap is above 100 percent.
    InvalidMemCap(u8),
    /// The merge-rule text could not be read.
    InvalidMerges(MergeRulesError),
}

/// The chunk size that a chunk-size text gives, if one was given.
pub open spec fn chunk_size_option(chunksize: Option<String>) -> Result<Option<usize>, ConfigError> {
    match chunksize {
        None => Ok(None),
        Some(s) => match chunk_size_value(encode_utf8(trim_ws(s@))) {
            Ok(v) => Ok(Some(v)),
            Err(e) => Err(ConfigError::InvalidChunkSize(e)),
        },
    }
}

/// The first check that command-line values fail: the chunk size, then the memory
/// cap, then the merge rules.
pub open spec fn config_check(
    chunksize: Option<String>,
    memcap: Option<u8>,
    merges_text: Option<&str>,
) -> Result<(), ConfigError> {
    match chunk_size_option(chunksize) {
        Err(e) => Err(e),
        Ok(_) => if memcap is Some && memcap.unwrap() > 100 {
            Err(ConfigError::InvalidMemCap(memcap.unwrap()))
        } else {
            match merges_text {
                None => Ok(()),
                Some(text) => match merges_of_text(text.spec_bytes()) {
                    Err(e) => Err(ConfigError::InvalidMerges(e)),
                    Ok(_) => Ok(()),
                },
            }
        },
    }
}

impl CoreConfig {
    /// Builds a configuration from command-line values. `merges_text` is the content
    /// of the merge-rule file named by `merges`, if any. Checks come in this order:
    /// the chunk size, the memory cap, then the merge rules.
    pub fn new_from_cli(
        input: Option<PathBuf>,
        output: Option<PathBuf>,
        merges: Option<PathBuf>,
        merges_text: Option<&str>,
        content_type: Option<ContentType>,
        threads: Option<usize>,
        chunksize: Option<String>,
        memcap: Option<u8>,
        passthrough: bool,
    ) -> (r: Result<CoreConfig, ConfigError>)
        ensures
            match config_check(chunksize, memcap, merges_text) {
                Err(e) => r == Err::<CoreConfig, ConfigError>(e),
                Ok(_) => r is Ok,
            },
            r matches Ok(cfg) ==> {
                &&& cfg.input == input
                &&& cfg.output == output
                &&& cfg.merges_file == merges
                &&& cfg.content_type == content_type
                &&& cfg.num_threads >= 1
                &&& (threads matches Some(t) ==> cfg.num_threads == (if t == 0 { 1 } else { t }))
                &&& chunk_size_option(chunksize) == Ok::<Option<usize>, ConfigError>(cfg.cli_chunk_size)
                &&& cfg.mem_cap_percent == (match memcap { Some(c) => c, None => DEFAULT_MEM_CAP_PERCENT })
                &&& cfg.passthrough == passthrough
                &&& (merges_text is None <==> cfg.bpe_data is None)
                &&& (merges_text matches Some(text) ==> cfg.bpe_data matches Some(d)
                    && merges_of_text(text.spec_bytes()) == Ok::<Map<(u16, u16), u16>, MergeRulesError>(d@))
            },
    {
        let num_threads = utils::determine_thread_count(threads);
        let cli_chunk_size = match Self::parse_chunksize(chunksize) {
            Ok(c) => c,
            Err(e) => return Err(e),
        };
        let mem_cap_percent = match memcap {
            Some(c) => {
                if c > 100 {
                    return Err(ConfigError::InvalidMemCap(c));
                }
                c
            },
            None => DEFAULT_MEM_CAP_PERCENT,
        };
        let bpe_data = match Self::load_bpe_data(merges_text) {
            Ok(d) => d,
            Err(e) => return Err(e),
        };
        Ok(CoreConfig {
            input,
            output,
            merges_file: merges,
            content_type,
            num_threads,
            cli_chunk_size,
            mem_cap_percent,
            bpe_data,
            passthrough,
        })
    }

    fn parse_chunksize(chunksize: Option<String>) -> (r: Result<Option<usize>, ConfigError>)
        ensures
            r == chunk_size_option(chunksize),
    {
        match chunksize {
            None => Ok(None),
            Some(s) => match parse_chunk_size_str(s.as_str()) {
                Ok(v) => Ok(Some(v)),
                Err(e) => Err(ConfigError::InvalidChunkSize(e)),
            },
        }
    }

    fn load_bpe_data(merges_text: Option<&str>) -> (r: Result<Option<Arc<BpeMerges>>, ConfigError>)
        ensures
            merges_text is None ==> r matches Ok(None),
            merges_text matches Some(text) ==> match merges_of_text(text.spec_bytes()) {
                Ok(m) => r matches Ok(Some(d)) && d@ == m,
                Err(e) => r == Err::<Option<Arc<BpeMerges>>, ConfigError>(ConfigError::InvalidMerges(e)),
            },
    {
        match merges_text {
            None => Ok(None),
            Some(text) => match Self::load_merges_from_file(text) {
                Ok(m) => Ok(Some(Arc::new(m))),
                Err(e) => Err(ConfigError::InvalidMerges(e)),
            },
        }
    }

    fn load_merges_from_file(text: &str) -> (r: Result<BpeMerges, MergeRulesError>)
        ensures
            match merges_of_text(text.spec_bytes()) {
                Ok(m) => r matches Ok(table) && table@ == m,
                Err(e) => r == Err::<BpeMerges, MergeRulesError>(e),
            },
    {
        parse_bpe_merges(text.as_bytes())
    }
}

/// Reads a merge-rule text into a table whose pairs are byte values.
pub fn load_bpe_merges(text: &str) -> (r: Result<BpeMerges, MergeRulesError>)
    ensures
        match merges_of_text(text.spec_bytes()) {
            Ok(m) => r matches Ok(table) && table@ == m,
            Err(e) => r == Err::<BpeMerges, MergeRulesError>(e),
        },
        r matches Ok(table) ==> forall|p: (u16, u16)| #[trigger] table@.contains_key(p) ==> p.0 < 256 && p.1 < 256,
{
    let r = parse_bpe_merges(text.as_bytes());
    proof {
        config_loader::lemma_rules_are_byte_pairs(config_loader::lines_from(text.spec_bytes(), 0));
    }
    r
}

/// The strategy a run uses, chosen once from the configuration.
pub enum Strategy {
    /// Byte-pair merging over a merge table.
    Bpe(BpeStrategy),
    /// Every byte widened to a 2-byte token.
    Basic(BasicTokenizationStrategy),
    /// The input copied unchanged.
    Passthrough(PassthroughStrategy),
}

impl TokenizationStrategy for Strategy {
    open spec fn transform(&self, chunk: Seq<u8>) -> Seq<u8> {
        match self {
            Strategy::Bpe(s) => s.transform(chunk),
            Strategy::Basic(s) => s.transform(chunk),
            Strategy::Passthrough(s) => s.transform(chunk),
        }
    }

    fn process_chunk(&self, chunk_data: &[u8]) -> (r: Result<Vec<u8>, ChunkError>) {
        match self {
            Strategy::Bpe(s) => s.process_chunk(chunk_data),
            Strategy::Basic(s) => s.process_chunk(chunk_data),
            Strategy::Passthrough(s) => s.process_chunk(chunk_data),
        }
    }
}

/// Byte-pair merging when there is a merge table; otherwise passthrough if asked
/// for, else byte widening.
pub fn select_strategy(config: &CoreConfig) -> (r: Strategy)
    ensures
        match config.bpe_data {
            Some(d) => r matches Strategy::Bpe(s) && s.bpe_merges@ == d@,
            None => if config.passthrough { r is Passthrough } else { r is Basic },
        },
{
    match &config.bpe_data {
        Some(bpe_data) => Strategy::Bpe(BpeStrategy::new(bpe_data.clone())),
        None => {
            if config.passthrough {
                Strategy::Passthrough(PassthroughStrategy)
            } else {
                Strategy::Basic(BasicTokenizationStrategy)
            }
        },
    }
}

/// The bytes that open the output: the content type's marker token, big-endian,
/// or nothing.
pub fn prepend_content_type_token(content_type: Option<ContentType>) -> (r: Vec<u8>)
    ensures
        match content_type {
            Some(ct) => r@ == seq![(content_token(ct) / 256) as u8, (content_token(ct) % 256) as u8],
            None => r@ == Seq::<u8>::empty(),
        },
{
    let mut out: Vec<u8> = Vec::new();
    if let Some(ct) = content_type {
        let token = ct.get_token_value();
        out.push((token / 256) as u8);
        out.push((token % 256) as u8);
    }
    out
}

} // verus!
