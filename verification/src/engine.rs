//! The engine: patch text, sample dictionary, graph store and scheduler.
//!
//! One engine instance owns everything; a generation call recompiles the
//! patch when its policy says so, runs every sink once per sub-window and
//! sums the sink buffers into the returned frame. The small-frame entry
//! point recompiles unconditionally before every call; the large-frame
//! entry point recompiles only when an update is pending and the sample
//! clock sits within one small frame of a bar boundary.

use vstd::prelude::*;
use crate::compile::{
    CompileError, compile_spec, dict_model, build_lines, build_elems, lemma_build_elems_err,
    lemma_build_lines_err,
};
use crate::fx::UNIT_U;
use crate::graph::{GraphStore, GraphModel, frame_spec, bind_spec, find_name, MAX_NODES};
use crate::parse::{QParser, PElem, LineM, ElemM, lines_model, elems_model};
use crate::unit::{FRAME, MAX_CYCLE};

verus! {

/// The samples of one musical bar: four beats at the configured tempo.
/// Degenerate configurations fall back to a one-sample bar.
pub open spec fn bar_len_s(sr: u64, bpm: u64) -> int {
    let b = if bpm == 0 {
        1
    } else {
        240 * sr as int / bpm as int
    };
    if b <= 0 {
        1
    } else {
        b
    }
}

/// The bar length in ticks: the sequencer cycle the compiler hands every
/// loop unit.
pub open spec fn bar_ticks_s(sr: u64, bpm: u64) -> u64 {
    (bar_len_s(sr, bpm) * UNIT_U as int) as u64
}

/// Whether the sample clock sits within one small frame of the end of a
/// bar: the only place the deferred-recompile policy rebuilds the graph.
pub open spec fn near_bar_end(elapsed: u64, sr: u64, bpm: u64) -> bool {
    let bar = bar_len_s(sr, bpm);
    bar - (elapsed as int % bar) <= FRAME as int
}


/// A failure inside one line's chain is the verdict of the whole build.
proof fn lemma_elem_err(
    lm: Seq<LineM>,
    li: int,
    g_line: GraphModel,
    ei: int,
    d0: Seq<(Seq<u8>, Seq<i64>)>,
    sr: u64,
    bar: u64,
    e: CompileError,
)
    requires
        0 <= li < lm.len(),
        build_lines(lm, li, d0, sr, bar) == Ok::<GraphModel, CompileError>(g_line),
        0 <= ei <= lm[li].elems.len(),
        build_elems(g_line, None, lm[li].elems, ei, d0, sr, bar) == Err::<
            (GraphModel, Option<int>),
            CompileError,
        >(e),
    ensures
        build_lines(lm, lm.len() as int, d0, sr, bar) == Err::<GraphModel, CompileError>(e),
{
    lemma_build_elems_err(
        g_line,
        None,
        lm[li].elems,
        ei,
        lm[li].elems.len() as int,
        d0,
        sr,
        bar,
    );
    assert(build_lines(lm, li + 1, d0, sr, bar) == Err::<GraphModel, CompileError>(e));
    lemma_build_lines_err(lm, li + 1, lm.len() as int, d0, sr, bar);
}

/// The live-coding engine.
pub struct Engine {
    /// Samples generated since the engine started; advances by the frame
    /// size on every generation call.
    pub elapsed_samples: u64,
    /// The compiled unit graph of the current patch.
    pub graph: GraphStore,
    /// Sample tables by symbol, populated before compilation.
    pub samples_dict: Vec<(Vec<u8>, Vec<i64>)>,
    /// Sample rate in Hz.
    pub sr: u64,
    /// Tempo in beats per minute.
    pub bpm: u64,
    /// The current patch text.
    pub code: Vec<u8>,
    /// Set when new patch text waits for a safe recompile point.
    pub update: bool,
}

impl Engine {
    /// Validity: a sane sample rate and a well-formed graph.
    pub open spec fn wf(self) -> bool {
        &&& 1 <= self.sr <= 1000000
        &&& self.graph.wf()
    }

    /// A fresh engine: empty patch, empty graph, 44100 Hz, 120 BPM.
    pub fn new() -> (r: Engine)
        ensures
            r.wf(),
            r.elapsed_samples == 0,
            r.sr == 44100,
            r.bpm == 120,
            r.code@ == Seq::<u8>::empty(),
            r.update == false,
            r.graph.model() == GraphModel::empty(),
            r.samples_dict@.len() == 0,
    {
        Engine {
            elapsed_samples: 0,
            graph: GraphStore::new(),
            samples_dict: Vec::new(),
            sr: 44100,
            bpm: 120,
            code: Vec::new(),
            update: false,
        }
    }

    /// The bar length in ticks for the current configuration.
    fn bar_ticks(&self) -> (r: u64)
        requires
            1 <= self.sr <= 1000000,
        ensures
            r == bar_ticks_s(self.sr, self.bpm),
            UNIT_U <= r <= MAX_CYCLE,
    {
        let b: u64 = if self.bpm == 0 {
            1
        } else {
            240 * self.sr / self.bpm
        };
        let b: u64 = if b == 0 {
            1
        } else {
            b
        };
        b * UNIT_U
    }

    /// Registers (or replaces the front entry of) a sample table under a
    /// symbol; the sampler constructor resolves symbols against this
    /// dictionary.
    pub fn add_sample(&mut self, name: Vec<u8>, table: Vec<i64>)
        ensures
            final(self).samples_dict@ == old(self).samples_dict@.insert(0, (name, table)),
            final(self).graph == old(self).graph,
            final(self).code == old(self).code,
            final(self).sr == old(self).sr,
            final(self).bpm == old(self).bpm,
            final(self).elapsed_samples == old(self).elapsed_samples,
            final(self).update == old(self).update,
    {
        self.samples_dict.insert(0, (name, table));
    }

    /// Compiles the current patch text into a fresh graph: parses the whole
    /// text, builds every line's chain, and swaps the new graph in. On any
    /// error the previous graph stays untouched and the error says exactly
    /// what failed.
    pub fn parse(&mut self) -> (r: Result<(), CompileError>)
        requires
            1 <= old(self).sr <= 1000000,
        ensures
            final(self).sr == old(self).sr,
            final(self).bpm == old(self).bpm,
            final(self).code == old(self).code,
            final(self).samples_dict == old(self).samples_dict,
            final(self).elapsed_samples == old(self).elapsed_samples,
            final(self).update == old(self).update,
            ({
                let sp = compile_spec(
                    old(self).code@,
                    dict_model(old(self).samples_dict@),
                    old(self).sr,
                    bar_ticks_s(old(self).sr, old(self).bpm),
                );
                match r {
                    Ok(_) => {
                        &&& sp == Ok::<GraphModel, CompileError>(final(self).graph.model())
                        &&& final(self).graph.wf()
                    },
                    Err(e) => {
                        &&& sp == Err::<GraphModel, CompileError>(e)
                        &&& final(self).graph == old(self).graph
                    },
                }
            }),
    {
        let ghost d0 = dict_model(self.samples_dict@);
        let sr = self.sr;
        let bar = self.bar_ticks();
        let ast = match QParser::parse(&self.code) {
            Some(a) => a,
            None => {
                return Err(CompileError::ParseError);
            },
        };
        let ghost lm = lines_model(ast@);
        let mut ng = GraphStore::new();
        let mut li: usize = 0;
        while li < ast.len()
            invariant
                li <= ast@.len(),
                lm == lines_model(ast@),
                lm.len() == ast@.len(),
                *self == *old(self),
                crate::parse::parse_text_spec(old(self).code@) == Some(lm),
                ng.wf(),
                1 <= sr <= 1000000,
                sr == old(self).sr,
                bar == bar_ticks_s(old(self).sr, old(self).bpm),
                UNIT_U <= bar <= MAX_CYCLE,
                d0 == dict_model(old(self).samples_dict@),
                build_lines(lm, li as int, d0, sr, bar) == Ok::<GraphModel, CompileError>(
                    ng.model(),
                ),
            decreases ast@.len() - li,
        {
            let ghost g_line = ng.model();
            proof {
                assert(lm[li as int] == ast@[li as int].model());
            }
            let line = &ast[li];
            let ghost em = elems_model(line.elems@);
            let mut head: Option<u32> = None;
            let mut ei: usize = 0;
            while ei < line.elems.len()
                invariant
                    ei <= line.elems@.len(),
                    em == elems_model(line.elems@),
                    li < lm.len(),
                    lm.len() == ast@.len(),
                    lm == lines_model(ast@),
                    *self == *old(self),
                    crate::parse::parse_text_spec(old(self).code@) == Some(lm),
                    lm[li as int] == ast@[li as int].model(),
                    *line == ast@[li as int],
                    em == lm[li as int].elems,
                    build_lines(lm, li as int, d0, sr, bar) == Ok::<GraphModel, CompileError>(
                        g_line,
                    ),
                    ng.wf(),
                    1 <= sr <= 1000000,
                    sr == old(self).sr,
                    bar == bar_ticks_s(old(self).sr, old(self).bpm),
                    UNIT_U <= bar <= MAX_CYCLE,
                    d0 == dict_model(old(self).samples_dict@),
                    build_elems(g_line, None, em, ei as int, d0, sr, bar) == Ok::<
                        (GraphModel, Option<int>),
                        CompileError,
                    >(
                        (
                            ng.model(),
                            match head {
                                Some(h) => Some(h as int),
                                None => None::<int>,
                            },
                        ),
                    ),
                    match head {
                        Some(h) => (h as int) < ng.model().units.len(),
                        None => true,
                    },
                decreases line.elems@.len() - ei,
            {
                let ghost gp = ng.model();
                proof {
                    assert(em[ei as int] == line.elems@[ei as int].model());
                }
                match &line.elems[ei] {
                    PElem::ChainRef(nm) => {
                        match ng.lookup(nm) {
                            None => {
                                proof {
                                    assert(em == lm[li as int].elems);
                                    assert(build_elems(g_line, None, em, (ei + 1) as int, d0, sr, bar)
                                        == Err::<(GraphModel, Option<int>), CompileError>(CompileError::UnresolvedRef));
                                    lemma_elem_err(lm, li as int, g_line, (ei + 1) as int, d0, sr, bar, CompileError::UnresolvedRef);
                                }
                                return Err(CompileError::UnresolvedRef);
                            },
                            Some(ri) => {
                                match head {
                                    None => {
                                        head = Some(ri);
                                    },
                                    Some(h) => {
                                        if ri >= h {
                                            proof {
                                                assert(em == lm[li as int].elems);
                                                assert(build_elems(g_line, None, em, (ei + 1) as int, d0, sr, bar)
                                                    == Err::<(GraphModel, Option<int>), CompileError>(CompileError::BadEdge));
                                                lemma_elem_err(lm, li as int, g_line, (ei + 1) as int, d0, sr, bar, CompileError::BadEdge);
                                            }
                                            return Err(CompileError::BadEdge);
                                        }
                                        match ng.add_edge(ri, h) {
                                            None => {
                                                proof {
                                                    assert(em == lm[li as int].elems);
                                                    assert(build_elems(g_line, None, em, (ei + 1) as int, d0, sr, bar)
                                                        == Err::<(GraphModel, Option<int>), CompileError>(CompileError::Capacity));
                                                    lemma_elem_err(lm, li as int, g_line, (ei + 1) as int, d0, sr, bar, CompileError::Capacity);
                                                }
                                                return Err(CompileError::Capacity);
                                            },
                                            Some(_) => {},
                                        }
                                    },
                                }
                            },
                        }
                    },
                    PElem::Call(c) => {
                        proof {
                            assert(em[ei as int] == ElemM::Call(c.model()));
                        }
                        match crate::compile::unit_of_call_x(
                            &c.op,
                            &c.params,
                            &ng,
                            &self.samples_dict,
                            sr,
                            bar,
                        ) {
                            Err(e) => {
                                proof {
                                    assert(em == lm[li as int].elems);
                                    assert(build_elems(g_line, None, em, (ei + 1) as int, d0, sr, bar)
                                        == Err::<(GraphModel, Option<int>), CompileError>(e));
                                    lemma_elem_err(lm, li as int, g_line, (ei + 1) as int, d0, sr, bar, e);
                                }
                                return Err(e);
                            },
                            Ok(None) => {},
                            Ok(Some((u, msrc))) => {
                                let idx = match ng.add_node(u) {
                                    None => {
                                        proof {
                                            assert(em == lm[li as int].elems);
                                            assert(build_elems(g_line, None, em, (ei + 1) as int, d0, sr, bar)
                                                == Err::<(GraphModel, Option<int>), CompileError>(CompileError::Capacity));
                                            lemma_elem_err(lm, li as int, g_line, (ei + 1) as int, d0, sr, bar, CompileError::Capacity);
                                        }
                                        return Err(CompileError::Capacity);
                                    },
                                    Some(idx) => idx,
                                };
                                match head {
                                    Some(h) => {
                                        match ng.add_edge(h, idx) {
                                            None => {
                                                proof {
                                                    assert(em == lm[li as int].elems);
                                                    assert(build_elems(g_line, None, em, (ei + 1) as int, d0, sr, bar)
                                                        == Err::<(GraphModel, Option<int>), CompileError>(CompileError::Capacity));
                                                    lemma_elem_err(lm, li as int, g_line, (ei + 1) as int, d0, sr, bar, CompileError::Capacity);
                                                }
                                                return Err(CompileError::Capacity);
                                            },
                                            Some(_) => {},
                                        }
                                    },
                                    None => {},
                                }
                                match msrc {
                                    Some(m) => {
                                        match ng.add_edge(m, idx) {
                                            None => {
                                                proof {
                                                    assert(em == lm[li as int].elems);
                                                    assert(build_elems(g_line, None, em, (ei + 1) as int, d0, sr, bar)
                                                        == Err::<(GraphModel, Option<int>), CompileError>(CompileError::Capacity));
                                                    lemma_elem_err(lm, li as int, g_line, (ei + 1) as int, d0, sr, bar, CompileError::Capacity);
                                                }
                                                return Err(CompileError::Capacity);
                                            },
                                            Some(_) => {},
                                        }
                                    },
                                    None => {},
                                }
                                head = Some(idx);
                            },
                        }
                    },
                }
                ei = ei + 1;
            }
            match head {
                None => {
                    proof {
                        assert(build_lines(lm, (li + 1) as int, d0, sr, bar)
                            == Ok::<GraphModel, CompileError>(ng.model()));
                    }
                },
                Some(h) => {
                    let ghost g2 = ng.model();
                    let nm: Vec<u8> = if line.name.len() == 0 {
                        let mut v: Vec<u8> = Vec::new();
                        v.push(126);
                        proof {
                            assert(v@ =~= crate::compile::sink_default());
                        }
                        v
                    } else {
                        crate::parse::copy_range(&line.name, 0, line.name.len())
                    };
                    let ghost nmv = nm@;
                    proof {
                        assert(lm[li as int].name == line.name@);
                        assert(nmv == if lm[li as int].name.len() == 0 {
                            crate::compile::sink_default()
                        } else {
                            lm[li as int].name
                        });
                    }
                    match ng.bind(nm, h) {
                        None => {
                            proof {
                                assert(find_name(g2.names, nmv) is None && g2.names.len()
                                    >= MAX_NODES);
                                assert(build_lines(lm, (li + 1) as int, d0, sr, bar)
                                    == Err::<GraphModel, CompileError>(CompileError::Capacity));
                                lemma_build_lines_err(
                                    lm, (li + 1) as int, lm.len() as int, d0, sr, bar,
                                );
                            }
                            return Err(CompileError::Capacity);
                        },
                        Some(_) => {
                            proof {
                                assert(ng.model() =~= (GraphModel {
                                    names: bind_spec(g2.names, nmv, h as int),
                                    ..g2
                                }));
                                assert(build_lines(lm, (li + 1) as int, d0, sr, bar)
                                    == Ok::<GraphModel, CompileError>(ng.model()));
                            }
                        },
                    }
                },
            }
            li = li + 1;
        }
        self.graph = ng;
        Ok(())
    }

    /// Generates one small frame: the whole graph is discarded and
    /// recompiled from the current patch text, unconditionally, then every
    /// sink is run once and mixed.
    pub fn gen_next_buf_64(&mut self) -> (r: Result<Vec<i64>, CompileError>)
        requires
            old(self).wf(),
            old(self).elapsed_samples + 64 <= 0xFFFFFFFFFFFFFFFF,
        ensures
            final(self).wf(),
            final(self).sr == old(self).sr,
            final(self).bpm == old(self).bpm,
            final(self).code == old(self).code,
            final(self).samples_dict == old(self).samples_dict,
            final(self).update == old(self).update,
            ({
                let sp = compile_spec(
                    old(self).code@,
                    dict_model(old(self).samples_dict@),
                    old(self).sr,
                    bar_ticks_s(old(self).sr, old(self).bpm),
                );
                match r {
                    Ok(out) => {
                        &&& sp matches Ok(g) && out@ == frame_spec(g).1
                            && final(self).graph.model() == frame_spec(g).0
                        &&& out@.len() == FRAME
                        &&& final(self).elapsed_samples == old(self).elapsed_samples + 64
                    },
                    Err(e) => {
                        &&& sp == Err::<GraphModel, CompileError>(e)
                        &&& *final(self) == *old(self)
                    },
                }
            }),
    {
        match self.parse() {
            Err(e) => {
                return Err(e);
            },
            Ok(_) => {},
        }
        let out = self.graph.run_frame();
        self.elapsed_samples = self.elapsed_samples + 64;
        Ok(out)
    }

    /// Generates one large frame of two sub-windows. The graph persists
    /// across calls; it is recompiled only when an update is pending and
    /// the sample clock sits within one small frame of a bar boundary. Each
    /// sub-window runs every sink afresh, so the two halves are two
    /// sequential executions, never a replay.
    pub fn gen_next_buf_128(&mut self) -> (r: Result<Vec<i64>, CompileError>)
        requires
            old(self).wf(),
            old(self).elapsed_samples + 128 <= 0xFFFFFFFFFFFFFFFF,
        ensures
            final(self).wf(),
            final(self).sr == old(self).sr,
            final(self).bpm == old(self).bpm,
            final(self).code == old(self).code,
            final(self).samples_dict == old(self).samples_dict,
            ({
                let rc = old(self).update && near_bar_end(
                    old(self).elapsed_samples,
                    old(self).sr,
                    old(self).bpm,
                );
                let sp = compile_spec(
                    old(self).code@,
                    dict_model(old(self).samples_dict@),
                    old(self).sr,
                    bar_ticks_s(old(self).sr, old(self).bpm),
                );
                match r {
                    Ok(out) => {
                        exists|g0: GraphModel|
                            {
                                &&& (if rc {
                                    sp == Ok::<GraphModel, CompileError>(g0)
                                } else {
                                    g0 == old(self).graph.model()
                                })
                                &&& out@ == frame_spec(g0).1 + frame_spec(frame_spec(g0).0).1
                                &&& final(self).graph.model() == frame_spec(frame_spec(g0).0).0
                                &&& out@.len() == 2 * FRAME
                                &&& final(self).elapsed_samples == old(self).elapsed_samples + 128
                                &&& final(self).update == (old(self).update && !rc)
                            }
                    },
                    Err(e) => {
                        &&& rc
                        &&& sp == Err::<GraphModel, CompileError>(e)
                        &&& *final(self) == *old(self)
                    },
                }
            }),
    {
        let near = {
            let b: u64 = if self.bpm == 0 {
                1
            } else {
                240 * self.sr / self.bpm
            };
            let bar: u64 = if b == 0 {
                1
            } else {
                b
            };
            bar - self.elapsed_samples % bar <= 64
        };
        if self.update && near {
            match self.parse() {
                Err(e) => {
                    return Err(e);
                },
                Ok(_) => {},
            }
            self.update = false;
        }
        let ghost g0 = self.graph.model();
        let o1 = self.graph.run_frame();
        let o2 = self.graph.run_frame();
        let mut out = o1;
        let mut j: usize = 0;
        while j < FRAME
            invariant
                j <= FRAME,
                o2@.len() == FRAME,
                out@ == frame_spec(g0).1 + o2@.take(j as int),
            decreases FRAME - j,
        {
            let v = o2[j];
            out.push(v);
            proof {
                assert(o2@.take((j + 1) as int) =~= o2@.take(j as int).push(o2@[j as int]));
            }
            j = j + 1;
        }
        proof {
            assert(o2@.take(FRAME as int) =~= o2@);
        }
        self.elapsed_samples = self.elapsed_samples + 128;
        Ok(out)
    }
}

} // verus!