//! What is handed to the kernel side.

use crate::bytes::Order;
use crate::dfa::{encoding, BpfDfa};
use crate::error::Error;
use crate::matches::{path_patterns, path_positions};
use crate::state::State;
use vstd::prelude::*;

verus! {

/// What is kept between reloads: the generation of the matches that were
/// compiled last, and the memory with what they were compiled to.
#[derive(Debug)]
pub struct BpfCtx {
    pub last_gen: u64,
    pub arena: Vec<u8>,
}

/// The configuration of the kernel side.
#[derive(Clone, Copy, Debug, PartialEq, Eq, Structural)]
pub struct BpfConfig {
    pub enable: bool,
    pub enable_dns: bool,
    pub mark: u32,
    pub generation: u64,
    /// The automaton for paths, where the matches were compiled anew.
    pub dfa: Option<BpfDfa>,
    pub arena_buf_len: u32,
}

impl BpfCtx {
    /// Nothing was compiled yet.
    pub fn new() -> (r: BpfCtx)
        ensures
            r.last_gen == 0,
            r.arena@.len() == 0,
    {
        BpfCtx { last_gen: 0, arena: Vec::new() }
    }

    /// Works out the configuration of the kernel side. The matches are compiled
    /// only where their generation is not the last one that was. Where that
    /// fails, the configuration has no automaton, and the error is given beside
    /// it.
    pub fn reload(
        &mut self,
        conf: &State,
        enable: bool,
        mark: u32,
        limit: u32,
        order: Order,
    ) -> (r: (BpfConfig, Option<Error>))
        ensures
            r.0.enable == enable,
            r.0.enable_dns == (enable && conf.matches.dns_count > 0),
            r.0.mark == mark,
            r.0.generation == conf.matches.generation,
            r.0.arena_buf_len == final(self).arena@.len() as u32,
            final(self).last_gen == conf.matches.generation,
            old(self).last_gen == conf.matches.generation ==> {
                &&& final(self).arena@ == old(self).arena@
                &&& r.0.dfa is None
                &&& r.1 is None
            },
            old(self).last_gen != conf.matches.generation ==> {
                &&& r.0.dfa is Some <==> r.1 is None
                &&& encoding(
                    path_patterns(conf@.matches.matches),
                    limit,
                    Seq::empty(),
                    path_positions(conf@.matches.matches),
                    conf@.matches.matches,
                    order,
                    match r.1 {
                        Some(e) => Err(e),
                        None => Ok(r.0.dfa->0),
                    },
                    final(self).arena@,
                )
            },
    {
        let mut dfa: Option<BpfDfa> = None;
        let mut error: Option<Error> = None;
        if self.last_gen != conf.matches.generation {
            self.last_gen = conf.matches.generation;
            self.arena.clear();
            match conf.matches.build_path_dfa(&mut self.arena, limit, order) {
                Ok(d) => {
                    dfa = Some(d);
                },
                Err(e) => {
                    error = Some(e);
                },
            }
        }
        let config = BpfConfig {
            enable,
            enable_dns: enable && conf.matches.dns_count > 0,
            mark,
            generation: conf.matches.generation,
            dfa,
            arena_buf_len: self.arena.len() as u32,
        };
        (config, error)
    }
}

} // verus!
