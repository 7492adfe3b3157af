//! The configuration of a run.

use crate::address::Address;
use crate::range::full_but_last;
use crate::range::page_plan;
use crate::range::plan;
use crate::range::spans;
use crate::range::tiles;
use crate::range::BlockSpan;
use crate::range::Page;
use vstd::prelude::*;

verus! {

/// The width of the widest page that a node is asked for unless told
/// otherwise: with it a full page holds ten thousand blocks, the most that
/// some nodes answer in one query.
pub const DEFAULT_PAGE_WIDTH: u64 = 9999;

/// How many queries are in flight at once unless told otherwise.
pub const DEFAULT_PARALLELISM: usize = 10;

/// What a run is given at its start and never changes: the contract whose
/// logs are fetched, how many queries may be in flight at once, and how
/// wide a page may be. Both limits are at least one.
#[derive(Clone, Copy, Debug)]
pub struct RunConfig {
    contract_address: Address,
    max_parallelism: usize,
    max_page_width: u64,
}

impl RunConfig {
    #[verifier::type_invariant]
    spec fn limits_positive(self) -> bool {
        self.max_parallelism >= 1 && self.max_page_width >= 1
    }

    /// The contract whose logs are fetched.
    pub closed spec fn address(&self) -> Address {
        self.contract_address
    }

    /// How many queries may be in flight at once.
    pub closed spec fn parallelism(&self) -> usize {
        self.max_parallelism
    }

    /// The greatest width of a page: the distance from its first block to
    /// its last.
    pub closed spec fn page_width(&self) -> u64 {
        self.max_page_width
    }

    /// The configuration with the given limits, or nothing when one of
    /// the limits is zero.
    pub fn new(contract_address: Address, max_parallelism: usize, max_page_width: u64) -> (config:
        Option<RunConfig>)
        ensures
            config is Some <==> max_parallelism >= 1 && max_page_width >= 1,
            config is Some ==> config.unwrap().address() == contract_address
                && config.unwrap().parallelism() == max_parallelism && config.unwrap().page_width()
                == max_page_width,
    {
        if max_parallelism >= 1 && max_page_width >= 1 {
            Some(RunConfig { contract_address, max_parallelism, max_page_width })
        } else {
            None
        }
    }

    /// The configuration with the default limits.
    pub fn with_defaults(contract_address: Address) -> (config: RunConfig)
        ensures
            config.address() == contract_address,
            config.parallelism() == DEFAULT_PARALLELISM,
            config.page_width() == DEFAULT_PAGE_WIDTH,
    {
        RunConfig {
            contract_address,
            max_parallelism: DEFAULT_PARALLELISM,
            max_page_width: DEFAULT_PAGE_WIDTH,
        }
    }

    /// The contract whose logs are fetched.
    pub fn contract_address(&self) -> (address: Address)
        ensures
            address == self.address(),
    {
        self.contract_address
    }

    /// How many queries may be in flight at once; at least one.
    pub fn max_parallelism(&self) -> (limit: usize)
        ensures
            limit == self.parallelism(),
            limit >= 1,
    {
        proof {
            use_type_invariant(self);
        }
        self.max_parallelism
    }

    /// The greatest width of a page; at least one.
    pub fn max_page_width(&self) -> (limit: u64)
        ensures
            limit == self.page_width(),
            limit >= 1,
    {
        proof {
            use_type_invariant(self);
        }
        self.max_page_width
    }

    /// The pages of the run when the chain's latest block is `last_block`:
    /// `[0, last_block]` cut into pages of the configured width.
    pub fn build_page_vector(&self, last_block: u64) -> (pages: Vec<Page>)
        ensures
            self.page_width() >= 1,
            spans(pages@) == page_plan(last_block as int, self.page_width() as int),
            tiles(spans(pages@), last_block as int),
            full_but_last(spans(pages@), self.page_width() as int),
            pages@.len() == last_block as int / (self.page_width() + 1) + 1,
            last_block <= self.page_width() ==> pages@.len() == 1 && spans(pages@) == seq![
                (BlockSpan { start: 0, end: last_block as int }),
            ],
    {
        plan(last_block, self.max_page_width())
    }
}

} // verus!
