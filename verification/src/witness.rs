//! The witness binding layer: a two-mode read/write protocol. `write`
//! serializes a value's base-field elements onto a witness stream; `read`
//! allocates one circuit variable per element in a builder. Both traverse
//! the fields of every type in the same order, stated by a shared `flat`
//! specification: `read` returns variables whose indices are exactly the
//! positions that `write` fills, so a freshly allocated witness stream
//! reconstructs identical variables.
use vstd::prelude::*;
use crate::challenger::DuplexChallenger;
use crate::types::{ChipInfo, ChipOpenedValues, AirOpenedValues, NameIndex, ShardCommitment, ShardProof, StarkVerifyingKey};
use vstd::string::StringExecFns;

verus! {

broadcast use crate::field::lemma_deep_view_felts;

/// Allocates circuit variables by consecutive index.
pub struct Builder {
    pub num_vars: usize,
}

/// The stream of witness values, appended to by `write`.
pub struct WitnessStream {
    pub data: Vec<u64>,
}

/// A circuit variable: the index of its slot in the witness stream.
#[derive(Debug, Clone, Copy, PartialEq, Eq, Structural)]
pub struct FeltVar {
    pub id: usize,
}

/// The indices `start, start + 1, ..., start + len - 1`.
pub open spec fn id_range(start: int, len: int) -> Seq<int> {
    Seq::new(if len >= 0 { len as nat } else { 0 }, |k: int| start + k)
}

/// Consecutive index ranges concatenate.
pub proof fn lemma_id_concat(s: int, a: Seq<int>, b: Seq<int>, la: int, lb: int)
    requires
        la >= 0,
        lb >= 0,
        a == id_range(s, la),
        b == id_range(s + la, lb),
    ensures
        a + b == id_range(s, la + lb),
{
    assert(a + b =~= id_range(s, la + lb));
}

/// The flats of the first `k` elements of a sequence, concatenated.
pub open spec fn flats<T: Witnessable>(s: Seq<T>, k: nat) -> Seq<u64>
    decreases k,
{
    if k == 0 {
        Seq::empty()
    } else {
        flats(s, (k - 1) as nat) + s[k - 1].flat()
    }
}

/// Flattening is monotone in the prefix length.
pub proof fn lemma_flats_len_le<T: Witnessable>(s: Seq<T>, k1: nat, k2: nat)
    requires
        k1 <= k2,
    ensures
        flats(s, k1).len() <= flats(s, k2).len(),
    decreases k2,
{
    if k1 < k2 {
        lemma_flats_len_le(s, k1, (k2 - 1) as nat);
    }
}

/// A value that can cross the witness boundary in both modes.
pub trait Witnessable: Sized {
    /// The circuit-side shape of the value.
    type Var;

    /// The base-field elements of the value, in traversal order.
    spec fn flat(&self) -> Seq<u64>;

    /// The variable indices a read value binds, in traversal order.
    spec fn var_ids(v: &Self::Var) -> Seq<int>;

    /// Allocate variables for the value: one per flat element, consecutive,
    /// in the same order `write` emits them.
    fn read(&self, builder: &mut Builder) -> (r: Self::Var)
        requires
            old(builder).num_vars + self.flat().len() <= usize::MAX,
        ensures
            Self::var_ids(&r) == id_range(old(builder).num_vars as int, self.flat().len() as int),
            final(builder).num_vars as int == old(builder).num_vars + self.flat().len(),
    ;

    /// Append the value's flat elements to the witness stream.
    fn write(&self, witness: &mut WitnessStream)
        ensures
            final(witness).data@ == old(witness).data@ + self.flat(),
    ;
}

/// Reading after writing lines up: the variable with index `k` binds
/// exactly element `k` of the freshly written stream.
pub proof fn lemma_witness_alignment<T: Witnessable>(x: &T, ids: Seq<int>, data: Seq<u64>)
    requires
        ids == id_range(0, x.flat().len() as int),
        data == x.flat(),
    ensures
        ids.len() == data.len(),
        forall|k: int| 0 <= k < ids.len() ==> ids[k] == k,
{
}

impl Witnessable for u64 {
    type Var = FeltVar;

    open spec fn flat(&self) -> Seq<u64> {
        seq![*self]
    }

    open spec fn var_ids(v: &FeltVar) -> Seq<int> {
        seq![v.id as int]
    }

    fn read(&self, builder: &mut Builder) -> (r: FeltVar) {
        let id = builder.num_vars;
        builder.num_vars = builder.num_vars + 1;
        let r = FeltVar { id };
        proof {
            assert(Self::var_ids(&r) =~= id_range(old(builder).num_vars as int, 1));
        }
        r
    }

    fn write(&self, witness: &mut WitnessStream) {
        witness.data.push(*self);
        proof {
            assert(witness.data@ =~= old(witness).data@ + self.flat());
        }
    }
}

impl Witnessable for bool {
    type Var = FeltVar;

    /// A boolean crosses the boundary as the field element `0` or `1`.
    open spec fn flat(&self) -> Seq<u64> {
        seq![if *self { 1u64 } else { 0u64 }]
    }

    open spec fn var_ids(v: &FeltVar) -> Seq<int> {
        seq![v.id as int]
    }

    fn read(&self, builder: &mut Builder) -> (r: FeltVar) {
        let f: u64 = if *self { 1 } else { 0 };
        let r = f.read(builder);
        proof {
            assert(Self::var_ids(&r) =~= id_range(old(builder).num_vars as int, 1));
        }
        r
    }

    fn write(&self, witness: &mut WitnessStream) {
        let f: u64 = if *self { 1 } else { 0 };
        f.write(witness);
    }
}

impl<T: Witnessable> Witnessable for Vec<T> {
    type Var = Vec<T::Var>;

    open spec fn flat(&self) -> Seq<u64> {
        flats(self@, self@.len())
    }

    open spec fn var_ids(v: &Vec<T::Var>) -> Seq<int> {
        var_ids_of::<T>(v@, v@.len())
    }

    fn read(&self, builder: &mut Builder) -> (r: Vec<T::Var>) {
        let ghost start: int = builder.num_vars as int;
        let mut r: Vec<T::Var> = Vec::new();
        let mut i: usize = 0;
        while i < self.len()
            invariant
                i <= self@.len(),
                r@.len() == i as nat,
                start + self.flat().len() <= usize::MAX,
                self.flat() == flats(self@, self@.len()),
                var_ids_of::<T>(r@, r@.len()) == id_range(start, flats(self@, i as nat).len() as int),
                builder.num_vars as int == start + flats(self@, i as nat).len(),
            decreases self@.len() - i,
        {
            proof {
                lemma_flats_len_le(self@, (i + 1) as nat, self@.len());
            }
            let v = self[i].read(builder);
            let ghost pre_ids: Seq<int> = var_ids_of::<T>(r@, r@.len());
            let ghost pre_seq: Seq<T::Var> = r@;
            r.push(v);
            proof {
                lemma_var_ids_prefix::<T>(r@, pre_seq, i as nat);
                assert(var_ids_of::<T>(r@, r@.len()) == pre_ids + T::var_ids(&v));
                lemma_id_concat(
                    start,
                    pre_ids,
                    T::var_ids(&v),
                    flats(self@, i as nat).len() as int,
                    self@[i as int].flat().len() as int,
                );
            }
            i += 1;
        }
        r
    }

    fn write(&self, witness: &mut WitnessStream) {
        let ghost d0: Seq<u64> = witness.data@;
        let mut i: usize = 0;
        while i < self.len()
            invariant
                i <= self@.len(),
                self.flat() == flats(self@, self@.len()),
                witness.data@ == d0 + flats(self@, i as nat),
            decreases self@.len() - i,
        {
            self[i].write(witness);
            proof {
                assert(witness.data@ =~= d0 + flats(self@, (i + 1) as nat));
            }
            i += 1;
        }
    }
}

/// Two sequences that agree on a prefix bind the same variables there.
pub proof fn lemma_var_ids_prefix<T: Witnessable>(s1: Seq<T::Var>, s2: Seq<T::Var>, k: nat)
    requires
        k <= s1.len(),
        k <= s2.len(),
        forall|j: int| 0 <= j < k ==> s1[j] == s2[j],
    ensures
        var_ids_of::<T>(s1, k) == var_ids_of::<T>(s2, k),
    decreases k,
{
    if k > 0 {
        lemma_var_ids_prefix::<T>(s1, s2, (k - 1) as nat);
    }
}

/// The variable indices of the first `k` elements, concatenated.
pub open spec fn var_ids_of<T: Witnessable>(s: Seq<T::Var>, k: nat) -> Seq<int>
    decreases k,
{
    if k == 0 {
        Seq::empty()
    } else {
        var_ids_of::<T>(s, (k - 1) as nat) + T::var_ids(&s[k - 1])
    }
}

/// For base-field elements the flattening is the sequence itself.
pub proof fn lemma_flats_u64(s: Seq<u64>, k: nat)
    requires
        k <= s.len(),
    ensures
        flats(s, k) == s.take(k as int),
    decreases k,
{
    if k == 0 {
        assert(flats(s, 0) =~= s.take(0));
    } else {
        lemma_flats_u64(s, (k - 1) as nat);
        assert(flats(s, k) =~= s.take(k as int));
    }
}

/// A four-lane word.
pub struct Word<T>(pub [T; 4]);

impl<T: Witnessable> Witnessable for Word<T> {
    type Var = Word<T::Var>;

    open spec fn flat(&self) -> Seq<u64> {
        self.0[0].flat() + self.0[1].flat() + self.0[2].flat() + self.0[3].flat()
    }

    open spec fn var_ids(v: &Word<T::Var>) -> Seq<int> {
        T::var_ids(&v.0[0]) + T::var_ids(&v.0[1]) + T::var_ids(&v.0[2]) + T::var_ids(&v.0[3])
    }

    fn read(&self, builder: &mut Builder) -> (r: Word<T::Var>) {
        let ghost start: int = builder.num_vars as int;
        proof {
            assert(self.0[0].flat().len() <= self.flat().len());
            assert(self.0[0].flat().len() + self.0[1].flat().len() <= self.flat().len());
            assert(self.0[0].flat().len() + self.0[1].flat().len() + self.0[2].flat().len()
                <= self.flat().len());
        }
        let v0 = self.0[0].read(builder);
        let v1 = self.0[1].read(builder);
        let v2 = self.0[2].read(builder);
        let v3 = self.0[3].read(builder);
        let r = Word([v0, v1, v2, v3]);
        proof {
            assert(Self::var_ids(&r) =~= id_range(start, self.flat().len() as int));
        }
        r
    }

    fn write(&self, witness: &mut WitnessStream) {
        self.0[0].write(witness);
        self.0[1].write(witness);
        self.0[2].write(witness);
        self.0[3].write(witness);
        proof {
            assert(witness.data@ =~= old(witness).data@ + self.flat());
        }
    }
}

impl<A: Witnessable, B: Witnessable> Witnessable for (A, B) {
    type Var = (A::Var, B::Var);

    open spec fn flat(&self) -> Seq<u64> {
        self.0.flat() + self.1.flat()
    }

    open spec fn var_ids(v: &(A::Var, B::Var)) -> Seq<int> {
        A::var_ids(&v.0) + B::var_ids(&v.1)
    }

    fn read(&self, builder: &mut Builder) -> (r: (A::Var, B::Var)) {
        let ghost start: int = builder.num_vars as int;
        let a = self.0.read(builder);
        let b = self.1.read(builder);
        proof {
            lemma_id_concat(
                start,
                A::var_ids(&a),
                B::var_ids(&b),
                self.0.flat().len() as int,
                self.1.flat().len() as int,
            );
        }
        (a, b)
    }

    fn write(&self, witness: &mut WitnessStream) {
        self.0.write(witness);
        self.1.write(witness);
        proof {
            assert(witness.data@ =~= old(witness).data@ + self.flat());
        }
    }
}

/// The circuit-side transcript: one variable per sponge and buffer element.
pub struct DuplexChallengerVariable {
    pub sponge_state: Vec<FeltVar>,
    pub input_buffer: Vec<FeltVar>,
    pub output_buffer: Vec<FeltVar>,
}

impl Witnessable for DuplexChallenger {
    type Var = DuplexChallengerVariable;

    open spec fn flat(&self) -> Seq<u64> {
        self.sponge_state@ + self.input_buffer@ + self.output_buffer@
    }

    open spec fn var_ids(v: &DuplexChallengerVariable) -> Seq<int> {
        var_ids_of::<u64>(v.sponge_state@, v.sponge_state@.len()) + var_ids_of::<u64>(
            v.input_buffer@,
            v.input_buffer@.len(),
        ) + var_ids_of::<u64>(v.output_buffer@, v.output_buffer@.len())
    }

    fn read(&self, builder: &mut Builder) -> (r: DuplexChallengerVariable) {
        let ghost start: int = builder.num_vars as int;
        proof {
            lemma_flats_u64(self.sponge_state@, self.sponge_state@.len());
            lemma_flats_u64(self.input_buffer@, self.input_buffer@.len());
            lemma_flats_u64(self.output_buffer@, self.output_buffer@.len());
            assert(self.sponge_state@.take(self.sponge_state@.len() as int) =~= self.sponge_state@);
            assert(self.input_buffer@.take(self.input_buffer@.len() as int) =~= self.input_buffer@);
            assert(self.output_buffer@.take(self.output_buffer@.len() as int)
                =~= self.output_buffer@);
        }
        let sponge_state = self.sponge_state.read(builder);
        let input_buffer = self.input_buffer.read(builder);
        let output_buffer = self.output_buffer.read(builder);
        let r = DuplexChallengerVariable { sponge_state, input_buffer, output_buffer };
        proof {
            assert(Self::var_ids(&r) =~= id_range(start, self.flat().len() as int));
        }
        r
    }

    fn write(&self, witness: &mut WitnessStream) {
        proof {
            lemma_flats_u64(self.sponge_state@, self.sponge_state@.len());
            lemma_flats_u64(self.input_buffer@, self.input_buffer@.len());
            lemma_flats_u64(self.output_buffer@, self.output_buffer@.len());
            assert(self.sponge_state@.take(self.sponge_state@.len() as int) =~= self.sponge_state@);
            assert(self.input_buffer@.take(self.input_buffer@.len() as int) =~= self.input_buffer@);
            assert(self.output_buffer@.take(self.output_buffer@.len() as int)
                =~= self.output_buffer@);
        }
        self.sponge_state.write(witness);
        self.input_buffer.write(witness);
        self.output_buffer.write(witness);
        proof {
            assert(witness.data@ =~= old(witness).data@ + self.flat());
        }
    }
}

/// A view-preserving copy of a string.
pub fn clone_string(s: &String) -> (r: String)
    ensures
        r@ == s@,
{
    String::from_str(s.as_str())
}

/// A copy of a name-to-index table, entry by entry.
pub fn clone_name_indices(v: &Vec<NameIndex>) -> (r: Vec<NameIndex>)
    ensures
        r@.len() == v@.len(),
        forall|i: int| 0 <= i < v@.len() ==> (#[trigger] r@[i]).name@ == v@[i].name@ && r@[i].index
            == v@[i].index,
{
    let mut r: Vec<NameIndex> = Vec::new();
    let mut i: usize = 0;
    while i < v.len()
        invariant
            i <= v@.len(),
            r@.len() == i as nat,
            forall|k: int| 0 <= k < i ==> (#[trigger] r@[k]).name@ == v@[k].name@ && r@[k].index
                == v@[k].index,
        decreases v@.len() - i,
    {
        let e = NameIndex { name: clone_string(&v[i].name), index: v[i].index };
        r.push(e);
        i += 1;
    }
    r
}

/// A copy of a verifying key's chip table, entry by entry.
pub fn clone_chip_infos(v: &Vec<ChipInfo>) -> (r: Vec<ChipInfo>)
    ensures
        r@.len() == v@.len(),
        forall|i: int| 0 <= i < v@.len() ==> (#[trigger] r@[i]).name@ == v@[i].name@ && r@[i].domain
            == v@[i].domain && r@[i].shape == v@[i].shape,
{
    let mut r: Vec<ChipInfo> = Vec::new();
    let mut i: usize = 0;
    while i < v.len()
        invariant
            i <= v@.len(),
            r@.len() == i as nat,
            forall|k: int| 0 <= k < i ==> (#[trigger] r@[k]).name@ == v@[k].name@ && r@[k].domain
                == v@[k].domain && r@[k].shape == v@[k].shape,
        decreases v@.len() - i,
    {
        let e = ChipInfo { name: clone_string(&v[i].name), domain: v[i].domain, shape: v[i].shape };
        r.push(e);
        i += 1;
    }
    r
}

/// The circuit-side verifying key: the commitment and starting program
/// counter are witnessed; the chip table and ordering are carried as plain
/// circuit constants.
pub struct VerifyingKeyVariable {
    pub commitment: Vec<FeltVar>,
    pub pc_start: FeltVar,
    pub chip_information: Vec<ChipInfo>,
    pub chip_ordering: Vec<NameIndex>,
}

impl Witnessable for StarkVerifyingKey {
    type Var = VerifyingKeyVariable;

    open spec fn flat(&self) -> Seq<u64> {
        self.commit@ + seq![self.pc_start]
    }

    open spec fn var_ids(v: &VerifyingKeyVariable) -> Seq<int> {
        var_ids_of::<u64>(v.commitment@, v.commitment@.len()) + seq![v.pc_start.id as int]
    }

    fn read(&self, builder: &mut Builder) -> (r: VerifyingKeyVariable) {
        let ghost start: int = builder.num_vars as int;
        proof {
            lemma_flats_u64(self.commit@, self.commit@.len());
            assert(self.commit@.take(self.commit@.len() as int) =~= self.commit@);
        }
        let commitment = self.commit.read(builder);
        let pc_start = self.pc_start.read(builder);
        let chip_information = clone_chip_infos(&self.chip_information);
        let chip_ordering = clone_name_indices(&self.chip_ordering);
        let r = VerifyingKeyVariable { commitment, pc_start, chip_information, chip_ordering };
        proof {
            assert(Self::var_ids(&r) =~= id_range(start, self.flat().len() as int));
        }
        r
    }

    fn write(&self, witness: &mut WitnessStream) {
        proof {
            lemma_flats_u64(self.commit@, self.commit@.len());
            assert(self.commit@.take(self.commit@.len() as int) =~= self.commit@);
        }
        self.commit.write(witness);
        self.pc_start.write(witness);
        proof {
            assert(witness.data@ =~= old(witness).data@ + self.flat());
        }
    }
}

pub struct AirOpenedValuesVariable {
    pub local: Vec<Vec<FeltVar>>,
    pub next: Vec<Vec<FeltVar>>,
}

impl Witnessable for AirOpenedValues {
    type Var = AirOpenedValuesVariable;

    open spec fn flat(&self) -> Seq<u64> {
        self.local.flat() + self.next.flat()
    }

    open spec fn var_ids(v: &AirOpenedValuesVariable) -> Seq<int> {
        <Vec<Vec<u64>> as Witnessable>::var_ids(&v.local) + <Vec<Vec<u64>> as Witnessable>::var_ids(
            &v.next,
        )
    }

    fn read(&self, builder: &mut Builder) -> (r: AirOpenedValuesVariable) {
        let ghost start: int = builder.num_vars as int;
        let local = self.local.read(builder);
        let next = self.next.read(builder);
        let r = AirOpenedValuesVariable { local, next };
        proof {
            assert(Self::var_ids(&r) =~= id_range(start, self.flat().len() as int));
        }
        r
    }

    fn write(&self, witness: &mut WitnessStream) {
        self.local.write(witness);
        self.next.write(witness);
        proof {
            assert(witness.data@ =~= old(witness).data@ + self.flat());
        }
    }
}

pub struct ChipOpenedValuesVariable {
    pub preprocessed: AirOpenedValuesVariable,
    pub main: AirOpenedValuesVariable,
    pub permutation: AirOpenedValuesVariable,
    pub quotient: Vec<Vec<Vec<FeltVar>>>,
    pub cumulative_sum: Vec<FeltVar>,
    pub log_degree: FeltVar,
}

impl Witnessable for ChipOpenedValues {
    type Var = ChipOpenedValuesVariable;

    open spec fn flat(&self) -> Seq<u64> {
        self.preprocessed.flat() + self.main.flat() + self.permutation.flat() + self.quotient.flat()
            + self.cumulative_sum.flat() + seq![self.log_degree as u64]
    }

    open spec fn var_ids(v: &ChipOpenedValuesVariable) -> Seq<int> {
        <AirOpenedValues as Witnessable>::var_ids(&v.preprocessed) + <AirOpenedValues as Witnessable>::var_ids(
            &v.main,
        ) + <AirOpenedValues as Witnessable>::var_ids(&v.permutation) + <Vec<Vec<Vec<u64>>> as Witnessable>::var_ids(
            &v.quotient,
        ) + <Vec<u64> as Witnessable>::var_ids(&v.cumulative_sum) + seq![v.log_degree.id as int]
    }

    fn read(&self, builder: &mut Builder) -> (r: ChipOpenedValuesVariable) {
        let ghost start: int = builder.num_vars as int;
        let preprocessed = self.preprocessed.read(builder);
        let main = self.main.read(builder);
        let permutation = self.permutation.read(builder);
        let quotient = self.quotient.read(builder);
        let cumulative_sum = self.cumulative_sum.read(builder);
        let ld: u64 = self.log_degree as u64;
        let log_degree = ld.read(builder);
        let r = ChipOpenedValuesVariable {
            preprocessed,
            main,
            permutation,
            quotient,
            cumulative_sum,
            log_degree,
        };
        proof {
            assert(Self::var_ids(&r) =~= id_range(start, self.flat().len() as int));
        }
        r
    }

    fn write(&self, witness: &mut WitnessStream) {
        self.preprocessed.write(witness);
        self.main.write(witness);
        self.permutation.write(witness);
        self.quotient.write(witness);
        self.cumulative_sum.write(witness);
        let ld: u64 = self.log_degree as u64;
        ld.write(witness);
        proof {
            assert(witness.data@ =~= old(witness).data@ + self.flat());
        }
    }
}

pub struct ShardCommitmentVariable {
    pub main_commit: Vec<FeltVar>,
    pub permutation_commit: Vec<FeltVar>,
    pub quotient_commit: Vec<FeltVar>,
}

impl Witnessable for ShardCommitment {
    type Var = ShardCommitmentVariable;

    open spec fn flat(&self) -> Seq<u64> {
        self.main_commit.flat() + self.permutation_commit.flat() + self.quotient_commit.flat()
    }

    open spec fn var_ids(v: &ShardCommitmentVariable) -> Seq<int> {
        <Vec<u64> as Witnessable>::var_ids(&v.main_commit) + <Vec<u64> as Witnessable>::var_ids(
            &v.permutation_commit,
        ) + <Vec<u64> as Witnessable>::var_ids(&v.quotient_commit)
    }

    fn read(&self, builder: &mut Builder) -> (r: ShardCommitmentVariable) {
        let ghost start: int = builder.num_vars as int;
        let main_commit = self.main_commit.read(builder);
        let permutation_commit = self.permutation_commit.read(builder);
        let quotient_commit = self.quotient_commit.read(builder);
        let r = ShardCommitmentVariable { main_commit, permutation_commit, quotient_commit };
        proof {
            assert(Self::var_ids(&r) =~= id_range(start, self.flat().len() as int));
        }
        r
    }

    fn write(&self, witness: &mut WitnessStream) {
        self.main_commit.write(witness);
        self.permutation_commit.write(witness);
        self.quotient_commit.write(witness);
        proof {
            assert(witness.data@ =~= old(witness).data@ + self.flat());
        }
    }
}

pub struct ShardProofVariable {
    pub commitment: ShardCommitmentVariable,
    pub opened_values: Vec<ChipOpenedValuesVariable>,
    pub opening_proof: Vec<FeltVar>,
    pub chip_ordering: Vec<NameIndex>,
    pub public_values: Vec<FeltVar>,
}

impl Witnessable for ShardProof {
    type Var = ShardProofVariable;

    open spec fn flat(&self) -> Seq<u64> {
        self.commitment.flat() + self.opened_values.chips.flat() + self.opening_proof.data.flat()
            + self.public_values.flat()
    }

    open spec fn var_ids(v: &ShardProofVariable) -> Seq<int> {
        <ShardCommitment as Witnessable>::var_ids(&v.commitment) + <Vec<ChipOpenedValues> as Witnessable>::var_ids(
            &v.opened_values,
        ) + <Vec<u64> as Witnessable>::var_ids(&v.opening_proof) + <Vec<u64> as Witnessable>::var_ids(
            &v.public_values,
        )
    }

    fn read(&self, builder: &mut Builder) -> (r: ShardProofVariable) {
        let ghost start: int = builder.num_vars as int;
        let commitment = self.commitment.read(builder);
        let opened_values = self.opened_values.chips.read(builder);
        let opening_proof = self.opening_proof.data.read(builder);
        let chip_ordering = clone_name_indices(&self.chip_ordering);
        let public_values = self.public_values.read(builder);
        let r = ShardProofVariable {
            commitment,
            opened_values,
            opening_proof,
            chip_ordering,
            public_values,
        };
        proof {
            assert(Self::var_ids(&r) =~= id_range(start, self.flat().len() as int));
        }
        r
    }

    fn write(&self, witness: &mut WitnessStream) {
        self.commitment.write(witness);
        self.opened_values.chips.write(witness);
        self.opening_proof.data.write(witness);
        self.public_values.write(witness);
        proof {
            assert(witness.data@ =~= old(witness).data@ + self.flat());
        }
    }
}

/// The witness of one recursion layer: a verifying key, its shard proofs,
/// the two transcripts, and the completeness flag.
pub struct RecursionWitnessValues {
    pub vk: StarkVerifyingKey,
    pub shard_proofs: Vec<ShardProof>,
    pub leaf_challenger: DuplexChallenger,
    pub initial_reconstruct_challenger: DuplexChallenger,
    pub is_complete: bool,
}

pub struct RecursionWitnessVariable {
    pub vk: VerifyingKeyVariable,
    pub shard_proofs: Vec<ShardProofVariable>,
    pub leaf_challenger: DuplexChallengerVariable,
    pub initial_reconstruct_challenger: DuplexChallengerVariable,
    pub is_complete: FeltVar,
}

impl Witnessable for RecursionWitnessValues {
    type Var = RecursionWitnessVariable;

    open spec fn flat(&self) -> Seq<u64> {
        self.vk.flat() + self.shard_proofs.flat() + self.leaf_challenger.flat()
            + self.initial_reconstruct_challenger.flat() + self.is_complete.flat()
    }

    open spec fn var_ids(v: &RecursionWitnessVariable) -> Seq<int> {
        <StarkVerifyingKey as Witnessable>::var_ids(&v.vk) + <Vec<ShardProof> as Witnessable>::var_ids(
            &v.shard_proofs,
        ) + <DuplexChallenger as Witnessable>::var_ids(&v.leaf_challenger)
            + <DuplexChallenger as Witnessable>::var_ids(&v.initial_reconstruct_challenger)
            + seq![v.is_complete.id as int]
    }

    fn read(&self, builder: &mut Builder) -> (r: RecursionWitnessVariable) {
        let ghost start: int = builder.num_vars as int;
        let vk = self.vk.read(builder);
        let shard_proofs = self.shard_proofs.read(builder);
        let leaf_challenger = self.leaf_challenger.read(builder);
        let initial_reconstruct_challenger = self.initial_reconstruct_challenger.read(builder);
        let is_complete = self.is_complete.read(builder);
        let r = RecursionWitnessVariable {
            vk,
            shard_proofs,
            leaf_challenger,
            initial_reconstruct_challenger,
            is_complete,
        };
        proof {
            assert(Self::var_ids(&r) =~= id_range(start, self.flat().len() as int));
        }
        r
    }

    fn write(&self, witness: &mut WitnessStream) {
        self.vk.write(witness);
        self.shard_proofs.write(witness);
        self.leaf_challenger.write(witness);
        self.initial_reconstruct_challenger.write(witness);
        self.is_complete.write(witness);
        proof {
            assert(witness.data@ =~= old(witness).data@ + self.flat());
        }
    }
}

/// The witness of a compress layer: verifying keys paired with proofs, and
/// the completeness flag.
pub struct CompressWitnessValues {
    pub vks_and_proofs: Vec<(StarkVerifyingKey, ShardProof)>,
    pub is_complete: bool,
}

pub struct CompressWitnessVariable {
    pub vks_and_proofs: Vec<(VerifyingKeyVariable, ShardProofVariable)>,
    pub is_complete: FeltVar,
}

impl Witnessable for CompressWitnessValues {
    type Var = CompressWitnessVariable;

    open spec fn flat(&self) -> Seq<u64> {
        self.vks_and_proofs.flat() + self.is_complete.flat()
    }

    open spec fn var_ids(v: &CompressWitnessVariable) -> Seq<int> {
        <Vec<(StarkVerifyingKey, ShardProof)> as Witnessable>::var_ids(&v.vks_and_proofs)
            + seq![v.is_complete.id as int]
    }

    fn read(&self, builder: &mut Builder) -> (r: CompressWitnessVariable) {
        let ghost start: int = builder.num_vars as int;
        let vks_and_proofs = self.vks_and_proofs.read(builder);
        let is_complete = self.is_complete.read(builder);
        let r = CompressWitnessVariable { vks_and_proofs, is_complete };
        proof {
            assert(Self::var_ids(&r) =~= id_range(start, self.flat().len() as int));
        }
        r
    }

    fn write(&self, witness: &mut WitnessStream) {
        self.vks_and_proofs.write(witness);
        self.is_complete.write(witness);
        proof {
            assert(witness.data@ =~= old(witness).data@ + self.flat());
        }
    }
}

/// The witness of the deferred-proofs layer.
pub struct DeferredWitnessValues {
    pub vks_and_proofs: Vec<(StarkVerifyingKey, ShardProof)>,
    pub start_reconstruct_deferred_digest: Vec<u64>,
    pub program_vk: StarkVerifyingKey,
    pub leaf_challenger: DuplexChallenger,
    pub committed_value_digest: Vec<Word<u64>>,
    pub deferred_proofs_digest: Vec<u64>,
    pub end_pc: u64,
    pub end_shard: u64,
    pub end_execution_shard: u64,
    pub init_addr_bits: Vec<u64>,
    pub finalize_addr_bits: Vec<u64>,
    pub is_complete: bool,
}

pub struct DeferredWitnessVariable {
    pub vks_and_proofs: Vec<(VerifyingKeyVariable, ShardProofVariable)>,
    pub start_reconstruct_deferred_digest: Vec<FeltVar>,
    pub program_vk: VerifyingKeyVariable,
    pub leaf_challenger: DuplexChallengerVariable,
    pub committed_value_digest: Vec<Word<FeltVar>>,
    pub deferred_proofs_digest: Vec<FeltVar>,
    pub end_pc: FeltVar,
    pub end_shard: FeltVar,
    pub end_execution_shard: FeltVar,
    pub init_addr_bits: Vec<FeltVar>,
    pub finalize_addr_bits: Vec<FeltVar>,
    pub is_complete: FeltVar,
}

impl Witnessable for DeferredWitnessValues {
    type Var = DeferredWitnessVariable;

    open spec fn flat(&self) -> Seq<u64> {
        self.vks_and_proofs.flat() + self.start_reconstruct_deferred_digest.flat()
            + self.program_vk.flat() + self.leaf_challenger.flat()
            + self.committed_value_digest.flat() + self.deferred_proofs_digest.flat()
            + self.end_pc.flat() + self.end_shard.flat() + self.end_execution_shard.flat()
            + self.init_addr_bits.flat() + self.finalize_addr_bits.flat() + self.is_complete.flat()
    }

    open spec fn var_ids(v: &DeferredWitnessVariable) -> Seq<int> {
        <Vec<(StarkVerifyingKey, ShardProof)> as Witnessable>::var_ids(&v.vks_and_proofs)
            + <Vec<u64> as Witnessable>::var_ids(&v.start_reconstruct_deferred_digest)
            + <StarkVerifyingKey as Witnessable>::var_ids(&v.program_vk)
            + <DuplexChallenger as Witnessable>::var_ids(&v.leaf_challenger)
            + <Vec<Word<u64>> as Witnessable>::var_ids(&v.committed_value_digest)
            + <Vec<u64> as Witnessable>::var_ids(&v.deferred_proofs_digest)
            + seq![v.end_pc.id as int] + seq![v.end_shard.id as int]
            + seq![v.end_execution_shard.id as int] + <Vec<u64> as Witnessable>::var_ids(
            &v.init_addr_bits,
        ) + <Vec<u64> as Witnessable>::var_ids(&v.finalize_addr_bits)
            + seq![v.is_complete.id as int]
    }

    fn read(&self, builder: &mut Builder) -> (r: DeferredWitnessVariable) {
        let ghost start: int = builder.num_vars as int;
        let vks_and_proofs = self.vks_and_proofs.read(builder);
        let start_reconstruct_deferred_digest = self.start_reconstruct_deferred_digest.read(builder);
        let program_vk = self.program_vk.read(builder);
        let leaf_challenger = self.leaf_challenger.read(builder);
        let committed_value_digest = self.committed_value_digest.read(builder);
        let deferred_proofs_digest = self.deferred_proofs_digest.read(builder);
        let end_pc = self.end_pc.read(builder);
        let end_shard = self.end_shard.read(builder);
        let end_execution_shard = self.end_execution_shard.read(builder);
        let init_addr_bits = self.init_addr_bits.read(builder);
        let finalize_addr_bits = self.finalize_addr_bits.read(builder);
        let is_complete = self.is_complete.read(builder);
        let r = DeferredWitnessVariable {
            vks_and_proofs,
            start_reconstruct_deferred_digest,
            program_vk,
            leaf_challenger,
            committed_value_digest,
            deferred_proofs_digest,
            end_pc,
            end_shard,
            end_execution_shard,
            init_addr_bits,
            finalize_addr_bits,
            is_complete,
        };
        proof {
            assert(Self::var_ids(&r) =~= id_range(start, self.flat().len() as int));
        }
        r
    }

    fn write(&self, witness: &mut WitnessStream) {
        self.vks_and_proofs.write(witness);
        self.start_reconstruct_deferred_digest.write(witness);
        self.program_vk.write(witness);
        self.leaf_challenger.write(witness);
        self.committed_value_digest.write(witness);
        self.deferred_proofs_digest.write(witness);
        self.end_pc.write(witness);
        self.end_shard.write(witness);
        self.end_execution_shard.write(witness);
        self.init_addr_bits.write(witness);
        self.finalize_addr_bits.write(witness);
        self.is_complete.write(witness);
        proof {
            assert(witness.data@ =~= old(witness).data@ + self.flat());
        }
    }
}

} // verus!
