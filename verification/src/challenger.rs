//! The Fiat–Shamir transcript: a duplex sponge over the configuration's
//! permutation. Commitments are observed element by element; challenges are
//! squeezed out of the state. Every transition is a specification-level
//! function of the previous state, so the derived challenges are a function
//! of everything observed.
use vstd::prelude::*;
use crate::field::{Ext, FieldConfig};
use crate::hashing::Digest;

verus! {

/// The transcript state: sponge state, pending inputs, available outputs.
pub type ChalState = (Seq<u64>, Seq<u64>, Seq<u64>);

/// The append-only transcript sponge.
pub struct DuplexChallenger {
    pub sponge_state: Vec<u64>,
    pub input_buffer: Vec<u64>,
    pub output_buffer: Vec<u64>,
}

/// Absorb the pending inputs into the state, permute, and expose the first
/// `rate` elements of the new state as outputs.
pub open spec fn spec_duplex<FC: FieldConfig>(fc: &FC, sponge: Seq<u64>, input: Seq<u64>) -> (
    Seq<u64>,
    Seq<u64>,
) {
    let absorbed = Seq::new(sponge.len(), |i: int| if i < input.len() { input[i] } else { sponge[i] });
    let permuted = fc.spec_permute(absorbed);
    (permuted, permuted.subrange(0, fc.spec_sponge_rate() as int))
}

/// Observing one element invalidates pending outputs, queues the element,
/// and duplexes once the rate is reached.
pub open spec fn spec_observe<FC: FieldConfig>(fc: &FC, st: ChalState, f: u64) -> ChalState {
    let input2 = st.1.push(f);
    if input2.len() == fc.spec_sponge_rate() {
        let (sp, out) = spec_duplex(fc, st.0, input2);
        (sp, Seq::empty(), out)
    } else {
        (st.0, input2, Seq::empty())
    }
}

/// Observing a sequence of elements, in order.
pub open spec fn spec_observe_many<FC: FieldConfig>(fc: &FC, st: ChalState, fs: Seq<u64>) -> ChalState
    decreases fs.len(),
{
    if fs.len() == 0 {
        st
    } else {
        spec_observe(fc, spec_observe_many(fc, st, fs.drop_last()), fs.last())
    }
}

/// Sampling duplexes if inputs are pending or outputs are exhausted, then
/// takes the last available output.
pub open spec fn spec_sample<FC: FieldConfig>(fc: &FC, st: ChalState) -> (u64, ChalState) {
    let st2 = if st.1.len() != 0 || st.2.len() == 0 {
        let (sp, out) = spec_duplex(fc, st.0, st.1);
        (sp, Seq::<u64>::empty(), out)
    } else {
        st
    };
    (st2.2.last(), (st2.0, st2.1, st2.2.drop_last()))
}

/// Sampling `k` elements, in order.
pub open spec fn spec_sample_many<FC: FieldConfig>(fc: &FC, st: ChalState, k: nat) -> (
    Seq<u64>,
    ChalState,
)
    decreases k,
{
    if k == 0 {
        (Seq::empty(), st)
    } else {
        let prev = spec_sample_many(fc, st, (k - 1) as nat);
        let (f, st2) = spec_sample(fc, prev.1);
        (prev.0.push(f), st2)
    }
}

/// An extension-field challenge: its coefficients are `degree` consecutive
/// samples.
pub open spec fn spec_sample_ext<FC: FieldConfig>(fc: &FC, st: ChalState) -> (Seq<u64>, ChalState) {
    spec_sample_many(fc, st, fc.spec_degree())
}

impl DuplexChallenger {
    /// The transcript as a mathematical state.
    pub open spec fn state(&self) -> ChalState {
        (self.sponge_state@, self.input_buffer@, self.output_buffer@)
    }

    /// Structural soundness of the transcript buffers.
    pub open spec fn wf<FC: FieldConfig>(&self, fc: &FC) -> bool {
        &&& self.sponge_state@.len() == fc.spec_sponge_width()
        &&& self.input_buffer@.len() < fc.spec_sponge_rate()
        &&& self.output_buffer@.len() <= fc.spec_sponge_rate()
    }

    /// A fresh transcript: an all-zero sponge and empty buffers.
    pub fn new<FC: FieldConfig>(fc: &FC) -> (r: Self)
        ensures
            r.wf(fc),
            r.state() == (Seq::new(fc.spec_sponge_width(), |i: int| 0u64), Seq::<u64>::empty(), Seq::<
                u64,
            >::empty()),
    {
        proof {
            fc.lemma_op_shapes();
        }
        let width = fc.sponge_width();
        let mut sponge_state: Vec<u64> = Vec::new();
        let mut i: usize = 0;
        while i < width
            invariant
                i <= width,
                sponge_state@ == Seq::new(i as nat, |k: int| 0u64),
            decreases width - i,
        {
            sponge_state.push(0);
            proof {
                assert(sponge_state@ =~= Seq::new((i + 1) as nat, |k: int| 0u64));
            }
            i += 1;
        }
        DuplexChallenger { sponge_state, input_buffer: Vec::new(), output_buffer: Vec::new() }
    }

    /// Absorb the pending input and refill the output buffer.
    fn duplex<FC: FieldConfig>(&mut self, fc: &FC)
        requires
            old(self).sponge_state@.len() == fc.spec_sponge_width(),
            old(self).input_buffer@.len() <= fc.spec_sponge_rate(),
            fc.spec_sponge_rate() <= fc.spec_sponge_width(),
        ensures
            ({
                let (sp, out) = spec_duplex(fc, old(self).state().0, old(self).state().1);
                final(self).state() == (sp, Seq::<u64>::empty(), out)
            }),
            final(self).wf(fc),
    {
        proof {
            fc.lemma_op_shapes();
        }
        let width = fc.sponge_width();
        let rate = fc.sponge_rate();
        let ghost absorbed_spec: Seq<u64> = Seq::new(
            self.sponge_state@.len(),
            |i: int| if i < self.input_buffer@.len() { self.input_buffer@[i] } else { self.sponge_state@[i] },
        );
        let mut absorbed: Vec<u64> = Vec::new();
        let mut i: usize = 0;
        while i < width
            invariant
                i <= width,
                width as nat == fc.spec_sponge_width(),
                self.sponge_state@.len() == width as nat,
                self.input_buffer@.len() <= width as nat,
                absorbed_spec == Seq::new(
                    self.sponge_state@.len(),
                    |k: int| if k < self.input_buffer@.len() {
                        self.input_buffer@[k]
                    } else {
                        self.sponge_state@[k]
                    },
                ),
                absorbed@ == absorbed_spec.subrange(0, i as int),
            decreases width - i,
        {
            let v: u64 = if i < self.input_buffer.len() {
                self.input_buffer[i]
            } else {
                self.sponge_state[i]
            };
            absorbed.push(v);
            proof {
                assert(absorbed@ =~= absorbed_spec.subrange(0, i + 1));
            }
            i += 1;
        }
        proof {
            assert(absorbed@ =~= absorbed_spec);
        }
        let permuted = fc.permute(&absorbed);
        let mut output_buffer: Vec<u64> = Vec::new();
        let mut j: usize = 0;
        while j < rate
            invariant
                j <= rate,
                rate as nat == fc.spec_sponge_rate(),
                permuted@.len() == fc.spec_sponge_width(),
                fc.spec_sponge_rate() <= fc.spec_sponge_width(),
                output_buffer@ == permuted@.subrange(0, j as int),
            decreases rate - j,
        {
            output_buffer.push(permuted[j]);
            proof {
                assert(output_buffer@ =~= permuted@.subrange(0, j + 1));
            }
            j += 1;
        }
        self.sponge_state = permuted;
        self.input_buffer = Vec::new();
        self.output_buffer = output_buffer;
        proof {
            assert(self.input_buffer@ =~= Seq::<u64>::empty());
        }
    }

    /// Observe one base-field element.
    pub fn observe<FC: FieldConfig>(&mut self, fc: &FC, f: u64)
        requires
            old(self).wf(fc),
        ensures
            final(self).wf(fc),
            final(self).state() == spec_observe(fc, old(self).state(), f),
    {
        proof {
            fc.lemma_op_shapes();
        }
        self.output_buffer = Vec::new();
        self.input_buffer.push(f);
        proof {
            assert(self.output_buffer@ =~= Seq::<u64>::empty());
        }
        if self.input_buffer.len() == fc.sponge_rate() {
            self.duplex(fc);
        }
    }

    /// Observe every element of a digest, in order.
    pub fn observe_digest<FC: FieldConfig>(&mut self, fc: &FC, d: &Digest)
        requires
            old(self).wf(fc),
        ensures
            final(self).wf(fc),
            final(self).state() == spec_observe_many(fc, old(self).state(), d@),
    {
        let ghost st0: ChalState = self.state();
        let mut i: usize = 0;
        proof {
            assert(d@.take(0) =~= Seq::<u64>::empty());
        }
        while i < d.len()
            invariant
                i <= d@.len(),
                self.wf(fc),
                self.state() == spec_observe_many(fc, st0, d@.take(i as int)),
            decreases d@.len() - i,
        {
            self.observe(fc, d[i]);
            proof {
                assert(d@.take(i + 1).drop_last() =~= d@.take(i as int));
                assert(d@.take(i + 1).last() == d@[i as int]);
            }
            i += 1;
        }
        proof {
            assert(d@.take(d@.len() as int) =~= d@);
        }
    }

    /// Sample one base-field element.
    pub fn sample<FC: FieldConfig>(&mut self, fc: &FC) -> (r: u64)
        requires
            old(self).wf(fc),
        ensures
            final(self).wf(fc),
            ({
                let (f, st) = spec_sample(fc, old(self).state());
                r == f && final(self).state() == st
            }),
    {
        proof {
            fc.lemma_op_shapes();
        }
        if self.input_buffer.len() != 0 || self.output_buffer.len() == 0 {
            self.duplex(fc);
        }
        let r = self.output_buffer.pop().unwrap();
        r
    }

    /// Sample `k` base-field elements, in order.
    pub fn sample_felts<FC: FieldConfig>(&mut self, fc: &FC, k: usize) -> (r: Vec<u64>)
        requires
            old(self).wf(fc),
        ensures
            final(self).wf(fc),
            ({
                let (fs, st) = spec_sample_many(fc, old(self).state(), k as nat);
                r@ == fs && final(self).state() == st
            }),
    {
        let ghost st0: ChalState = self.state();
        let mut r: Vec<u64> = Vec::new();
        let mut i: usize = 0;
        while i < k
            invariant
                i <= k,
                self.wf(fc),
                r@ == spec_sample_many(fc, st0, i as nat).0,
                self.state() == spec_sample_many(fc, st0, i as nat).1,
            decreases k - i,
        {
            let f = self.sample(fc);
            r.push(f);
            i += 1;
        }
        r
    }

    /// Sample one extension-field challenge: `degree` coefficients.
    pub fn sample_ext_element<FC: FieldConfig>(&mut self, fc: &FC) -> (r: Ext)
        requires
            old(self).wf(fc),
        ensures
            final(self).wf(fc),
            ({
                let (e, st) = spec_sample_ext(fc, old(self).state());
                r@ == e && final(self).state() == st
            }),
            r@.len() == fc.spec_degree(),
    {
        proof {
            fc.lemma_op_shapes();
        }
        let d = fc.degree();
        let r = self.sample_felts(fc, d);
        proof {
            lemma_sample_many_len(fc, old(self).state(), d as nat);
        }
        r
    }
}

/// Sampling `k` elements yields exactly `k` of them.
pub proof fn lemma_sample_many_len<FC: FieldConfig>(fc: &FC, st: ChalState, k: nat)
    ensures
        spec_sample_many(fc, st, k).0.len() == k,
    decreases k,
{
    if k > 0 {
        lemma_sample_many_len(fc, st, (k - 1) as nat);
    }
}

} // verus!
