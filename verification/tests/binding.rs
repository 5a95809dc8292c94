use stark_verifier::bits::reverse_bits_len;
use stark_verifier::challenger::DuplexChallenger;
use stark_verifier::field::FieldConfig;
use stark_verifier::io::hint_buffer_capacity;
use stark_verifier::memory::{MemoryChipType, MemoryInitializeFinalizeEvent, MemoryRecord};
use stark_verifier::sample::SmallConfig;
use stark_verifier::types::{NameIndex, StarkVerifyingKey};
use stark_verifier::witness::{
    Builder, DuplexChallengerVariable, FeltVar, Witnessable, WitnessStream, Word,
};

#[test]
fn reverse_bits_exact() {
    assert_eq!(reverse_bits_len(0, 5), 0);
    assert_eq!(reverse_bits_len(1, 5), 16);
    assert_eq!(reverse_bits_len(3, 5), 24);
    assert_eq!(reverse_bits_len(6, 4), 6);
    assert_eq!(reverse_bits_len(1, 1), 1);
    // reversing twice gives the index back
    for i in 0..32 {
        assert_eq!(reverse_bits_len(reverse_bits_len(i, 5), 5), i);
    }
}

#[test]
fn field_ops_exact() {
    let fc = SmallConfig;
    let a = vec![250, 1, 2, 3];
    let b = vec![10, 256, 5, 254];
    assert_eq!(fc.add(&a, &b), vec![3, 0, 7, 0]);
    assert_eq!(fc.sub(&a, &b), vec![240, 2, 254, 6]);
    assert_eq!(fc.mul(&a, &b), vec![187, 256, 10, 248]);
    assert_eq!(fc.embed(300), vec![43, 43, 43, 43]);
    assert_eq!(fc.monomial(2), vec![0, 0, 1, 0]);
}

#[test]
fn field_inverse_exact() {
    let fc = SmallConfig;
    // 2 * 129 == 258 == 1 mod 257
    assert_eq!(fc.try_inverse(&vec![2, 2, 2, 2]), Some(vec![129, 129, 129, 129]));
    assert_eq!(fc.try_inverse(&vec![1, 1, 1, 1]), Some(vec![1, 1, 1, 1]));
    // a lane that is zero modulo the field has no inverse
    assert_eq!(fc.try_inverse(&vec![0, 1, 1, 1]), None);
    assert_eq!(fc.try_inverse(&vec![1, 257, 1, 1]), None);
    // any found inverse really multiplies to one
    let v = vec![123, 45, 201, 9];
    let inv = fc.try_inverse(&v).unwrap();
    assert_eq!(fc.mul(&v, &inv), vec![1, 1, 1, 1]);
}

#[test]
fn memory_initialize_event() {
    let e = MemoryInitializeFinalizeEvent::initialize(77, 1234, true);
    assert_eq!(e.addr, 77);
    assert_eq!(e.value, 1234);
    assert_eq!(e.shard, 1);
    assert_eq!(e.timestamp, 1);
    assert_eq!(e.used, 1);
    let f = MemoryInitializeFinalizeEvent::initialize(0, 0, false);
    assert_eq!(f.shard, 1);
    assert_eq!(f.timestamp, 1);
    assert_eq!(f.used, 0);
}

#[test]
fn memory_finalize_event() {
    let record = MemoryRecord { value: 99, shard: 4, clk: 1000 };
    let e = MemoryInitializeFinalizeEvent::finalize_from_record(55, &record);
    assert_eq!(e.addr, 55);
    assert_eq!(e.value, 99);
    assert_eq!(e.shard, 4);
    assert_eq!(e.timestamp, 1000);
    assert_eq!(e.used, 1);
    assert_ne!(MemoryChipType::Initialize, MemoryChipType::Finalize);
}

#[test]
fn hint_capacity_rounding() {
    assert_eq!(hint_buffer_capacity(0), 0);
    assert_eq!(hint_buffer_capacity(1), 4);
    assert_eq!(hint_buffer_capacity(4), 4);
    assert_eq!(hint_buffer_capacity(5), 8);
    assert_eq!(hint_buffer_capacity(8), 8);
    assert_eq!(hint_buffer_capacity(1023), 1024);
}

#[test]
fn witness_scalars_round_trip() {
    let x: u64 = 42;
    let flag: bool = true;
    let mut stream = WitnessStream { data: vec![] };
    x.write(&mut stream);
    flag.write(&mut stream);
    assert_eq!(stream.data, vec![42, 1]);
    let mut builder = Builder { num_vars: 0 };
    let xv: FeltVar = x.read(&mut builder);
    let fv: FeltVar = flag.read(&mut builder);
    assert_eq!(xv.id, 0);
    assert_eq!(fv.id, 1);
    assert_eq!(builder.num_vars, 2);
}

#[test]
fn witness_word_and_vec_round_trip() {
    let w: Word<u64> = Word([10, 20, 30, 40]);
    let v: Vec<u64> = vec![7, 8, 9];
    let mut stream = WitnessStream { data: vec![] };
    w.write(&mut stream);
    v.write(&mut stream);
    assert_eq!(stream.data, vec![10, 20, 30, 40, 7, 8, 9]);
    let mut builder = Builder { num_vars: 0 };
    let wv = w.read(&mut builder);
    let vv = v.read(&mut builder);
    assert_eq!(wv.0[0].id, 0);
    assert_eq!(wv.0[3].id, 3);
    assert_eq!(vv.len(), 3);
    assert_eq!(vv[0].id, 4);
    assert_eq!(vv[2].id, 6);
    assert_eq!(builder.num_vars, 7);
}

#[test]
fn witness_challenger_round_trip() {
    let c = DuplexChallenger {
        sponge_state: vec![1, 2, 3, 4, 5, 6, 7, 8],
        input_buffer: vec![9, 10],
        output_buffer: vec![11],
    };
    let mut stream = WitnessStream { data: vec![] };
    c.write(&mut stream);
    assert_eq!(stream.data, vec![1, 2, 3, 4, 5, 6, 7, 8, 9, 10, 11]);
    let mut builder = Builder { num_vars: 0 };
    let cv: DuplexChallengerVariable = c.read(&mut builder);
    assert_eq!(cv.sponge_state.len(), 8);
    assert_eq!(cv.input_buffer.len(), 2);
    assert_eq!(cv.output_buffer.len(), 1);
    assert_eq!(cv.sponge_state[0].id, 0);
    assert_eq!(cv.input_buffer[0].id, 8);
    assert_eq!(cv.output_buffer[0].id, 10);
    assert_eq!(builder.num_vars, 11);
}

#[test]
fn witness_verifying_key_round_trip() {
    let vk = StarkVerifyingKey {
        commit: vec![1, 2, 3, 4, 5, 6, 7, 8],
        pc_start: 77,
        chip_information: vec![],
        chip_ordering: vec![NameIndex { name: String::from("cpu"), index: 0 }],
    };
    let mut stream = WitnessStream { data: vec![] };
    vk.write(&mut stream);
    // only the commitment and the starting program counter are witnessed
    assert_eq!(stream.data, vec![1, 2, 3, 4, 5, 6, 7, 8, 77]);
    let mut builder = Builder { num_vars: 0 };
    let vkv = vk.read(&mut builder);
    assert_eq!(vkv.commitment.len(), 8);
    assert_eq!(vkv.pc_start.id, 8);
    assert_eq!(builder.num_vars, 9);
    // the chip table travels as a plain constant
    assert_eq!(vkv.chip_ordering.len(), 1);
    assert_eq!(vkv.chip_ordering[0].name, String::from("cpu"));
    assert_eq!(vkv.chip_ordering[0].index, 0);
}

#[test]
fn challenger_sampling_deterministic() {
    let fc = SmallConfig;
    let mut c1 = DuplexChallenger::new(&fc);
    let mut c2 = DuplexChallenger::new(&fc);
    c1.observe(&fc, 5);
    c2.observe(&fc, 5);
    assert_eq!(c1.sample(&fc), c2.sample(&fc));
    assert_eq!(c1.sample_ext_element(&fc), c2.sample_ext_element(&fc));
}
