use cairo_fuzz::field::Felt;
use cairo_fuzz::magic::magic_values;
use cairo_fuzz::mutator::{Mutator, Strategy};

// The generator as the library documents it, to predict what is drawn.
struct Draws {
    s: u64,
}

impl Draws {
    fn seeded(seed: u64) -> Draws {
        Draws { s: if seed == 0 { 0x2545_F491_4F6C_DD1D } else { seed } }
    }

    fn word(&mut self) -> u64 {
        let a = self.s ^ (self.s << 13);
        let b = a ^ (a >> 7);
        self.s = b ^ (b << 17);
        self.s
    }

    fn range(&mut self, lo: usize, hi: usize) -> usize {
        let w = self.word();
        if hi <= lo {
            lo
        } else {
            lo + (w % ((hi - lo) as u64 + 1)) as usize
        }
    }

    fn byte(&mut self) -> u8 {
        (self.word() % 256) as u8
    }
}

fn bytes_of_u64(v: u64) -> [u8; 32] {
    let mut out = [0u8; 32];
    out[24..].copy_from_slice(&v.to_be_bytes());
    out
}

fn sample() -> Felt {
    let mut b = [0u8; 32];
    for i in 0..32 {
        b[i] = (i as u8).wrapping_mul(7).wrapping_add(1);
    }
    b[0] = 0x01;
    Felt::from_bytes_be(&b)
}

fn fit(v: &[u8]) -> [u8; 32] {
    let mut out = [0u8; 32];
    for i in 0..32 {
        if i < v.len() {
            out[i] = v[i];
        }
    }
    out
}

fn insert(b: &[u8; 32], at: usize, run: &[u8]) -> [u8; 32] {
    let mut v: Vec<u8> = Vec::new();
    v.extend_from_slice(&b[..at]);
    v.extend_from_slice(run);
    v.extend_from_slice(&b[at..]);
    fit(&v)
}

// 2^251 + 17 * 2^192 + 1, big-endian.
fn prime_bytes() -> [u8; 32] {
    let mut p = [0u8; 32];
    p[0] = 0x08;
    p[7] = 0x11;
    p[31] = 0x01;
    p
}

fn all_strategies() -> Vec<Strategy> {
    (0..16).map(Strategy::from_index).collect()
}

#[test]
fn strategy_indices_round_trip() {
    for i in 0..16 {
        assert_eq!(Strategy::from_index(i).index(), i);
    }
    assert_eq!(Strategy::from_index(0), Strategy::AddSmall);
    assert_eq!(Strategy::from_index(5), Strategy::Reserved);
    assert_eq!(Strategy::from_index(7), Strategy::SwapRange);
    assert_eq!(Strategy::from_index(15), Strategy::ByteRepeatInsert);
    assert_eq!(Strategy::from_index(16), Strategy::Reserved);
    assert_eq!(Strategy::from_index(usize::MAX), Strategy::Reserved);
}

#[test]
fn magic_table_holds_the_boundary_values() {
    let table = magic_values();
    assert_eq!(table.len(), 32);
    assert_eq!(table[0], vec![0x00]);
    assert_eq!(table[1], vec![0x01]);
    assert_eq!(table[3], vec![0x7f]);
    assert_eq!(table[5], vec![0x80]);
    assert_eq!(table[7], vec![0xff]);
    assert_eq!(table[9], vec![0x00, 0x01]);
    assert_eq!(table[10], vec![0x01, 0x00]);
    assert_eq!(table[12], vec![0xff, 0x7f]);
    assert_eq!(table[16], vec![0x00, 0x00, 0x00, 0x00]);
    assert_eq!(table[21], vec![0x80, 0x00, 0x00, 0x00]);
    assert_eq!(table[27], vec![0x7f, 0xff, 0xff, 0xff, 0xff, 0xff, 0xff, 0xff]);
    assert_eq!(table[30], vec![0x00, 0x00, 0x00, 0x00, 0x00, 0x00, 0x00, 0x80]);
    assert_eq!(table[31], vec![0xff; 8]);
}

#[test]
fn add_small_adds_the_drawn_amount() {
    // seed 1 draws the word 0x40822041; modulo 9 that is 6, so the amount is 7
    let mut m = Mutator::new(1);
    let out = m.add_small_random_value(Felt::from_u64(100));
    assert_eq!(out.to_bytes_be(), bytes_of_u64(107));
    for seed in 1..50u64 {
        let mut m = Mutator::new(seed);
        let mut d = Draws::seeded(seed);
        let amount = d.range(1, 9) as u64;
        let out = m.apply(Strategy::AddSmall, Felt::from_u64(1000));
        assert_eq!(out.to_bytes_be(), bytes_of_u64(1000 + amount));
    }
}

#[test]
fn add_small_stops_at_the_largest_element() {
    let mut top = prime_bytes();
    top[31] = 0x00;
    // seed 1 draws the amount 7
    let mut m = Mutator::new(1);
    assert_eq!(m.add_small_random_value(Felt::from_bytes_be(&top)).to_bytes_be(), top);
    // largest - 6 + 7 is held at the largest
    let near = Felt::from_bytes_be(&top).sub_mod(&Felt::from_u64(6)).to_bytes_be();
    let mut m = Mutator::new(1);
    assert_eq!(m.add_small_random_value(Felt::from_bytes_be(&near)).to_bytes_be(), top);
    // largest - 7 + 7 is the largest, reached without holding
    let exact = Felt::from_bytes_be(&top).sub_mod(&Felt::from_u64(7));
    let mut m = Mutator::new(1);
    assert_eq!(m.add_small_random_value(exact).to_bytes_be(), top);
    // largest - 8 + 7 is the largest - 1
    let below = Felt::from_bytes_be(&top).sub_mod(&Felt::from_u64(8));
    let mut m = Mutator::new(1);
    assert_eq!(
        m.add_small_random_value(below).to_bytes_be(),
        Felt::from_bytes_be(&top).sub_mod(&Felt::from_u64(1)).to_bytes_be()
    );
}

#[test]
fn subtract_small_never_goes_below_zero() {
    for seed in 1..200u64 {
        for start in 0..12u64 {
            let mut m = Mutator::new(seed);
            let mut d = Draws::seeded(seed);
            let amount = d.range(1, 9) as u64;
            let out = m.subtract_small_random_value(Felt::from_u64(start));
            assert_eq!(out.to_bytes_be(), bytes_of_u64(start.saturating_sub(amount)));
        }
    }
    let mut m = Mutator::new(1);
    assert_eq!(m.subtract_small_random_value(Felt::from_u64(100)).to_bytes_be(), bytes_of_u64(93));
    let mut m = Mutator::new(1);
    assert_eq!(m.subtract_small_random_value(Felt::from_u64(7)).to_bytes_be(), [0u8; 32]);
    let mut m = Mutator::new(1);
    assert_eq!(m.subtract_small_random_value(Felt::from_u64(6)).to_bytes_be(), [0u8; 32]);
}

#[test]
fn dec_never_goes_below_zero() {
    let mut m = Mutator::new(3);
    assert_eq!(m.dec_byte(Felt::zero()).to_bytes_be(), [0u8; 32]);
    assert_eq!(m.dec_byte(Felt::from_u64(1)).to_bytes_be(), [0u8; 32]);
    assert_eq!(m.dec_byte(Felt::from_u64(2)).to_bytes_be(), bytes_of_u64(1));
    assert_eq!(m.dec_byte(Felt::from_u64(1 << 40)).to_bytes_be(), bytes_of_u64((1 << 40) - 1));
}

#[test]
fn inc_adds_one() {
    let mut m = Mutator::new(3);
    assert_eq!(m.inc_byte(Felt::zero()).to_bytes_be(), bytes_of_u64(1));
    assert_eq!(m.inc_byte(Felt::from_u64(41)).to_bytes_be(), bytes_of_u64(42));
    let mut top = prime_bytes();
    top[31] = 0x00;
    assert_eq!(m.inc_byte(Felt::from_bytes_be(&top)).to_bytes_be(), top);
    let below = Felt::from_bytes_be(&top).sub_mod(&Felt::from_u64(1));
    assert_eq!(m.inc_byte(below).to_bytes_be(), top);
}

#[test]
fn inc_dec_and_the_free_slot_draw_nothing() {
    let mut m = Mutator::new(8);
    let mut fresh = Mutator::new(8);
    m.inc_byte(Felt::from_u64(5));
    m.dec_byte(Felt::from_u64(5));
    m.keep(Felt::from_u64(5));
    m.apply(Strategy::Reserved, Felt::from_u64(5));
    let a = m.mutate(Felt::from_u64(77));
    let b = fresh.mutate(Felt::from_u64(77));
    assert_eq!(a.to_bytes_be(), b.to_bytes_be());
}

#[test]
fn flip_bit_on_zero_returns_zero() {
    for seed in 0..100u64 {
        let mut m = Mutator::new(seed);
        let out = m.flip_random_bit(Felt::zero());
        assert_eq!(out.to_bytes_be(), [0u8; 32]);
        // nothing was drawn
        let mut fresh = Mutator::new(seed);
        assert_eq!(
            m.mutate(Felt::from_u64(9)).to_bytes_be(),
            fresh.mutate(Felt::from_u64(9)).to_bytes_be()
        );
    }
}

#[test]
fn flip_bit_stays_below_the_bit_length() {
    // 5 has three significant bits: the result is 4, 7 or 1
    let mut seen = [false; 3];
    for seed in 1..100u64 {
        let mut m = Mutator::new(seed);
        let mut d = Draws::seeded(seed);
        let bit = d.range(0, 2);
        let out = m.flip_random_bit(Felt::from_u64(5));
        assert_eq!(out.to_bytes_be(), bytes_of_u64(5 ^ (1 << bit)));
        seen[bit] = true;
    }
    assert_eq!(seen, [true; 3]);
    let mut m = Mutator::new(4);
    assert_eq!(m.flip_random_bit(Felt::from_u64(1)).to_bytes_be(), [0u8; 32]);
}

#[test]
fn add_sub_clamps_to_the_64_bit_range() {
    for seed in 1..300u64 {
        let mut d = Draws::seeded(seed);
        let delta = d.range(0, 200) as i128 - 100;
        for start in [0u64, 5, 99, 100, 101, 5000, u64::MAX - 50, u64::MAX] {
            let mut m = Mutator::new(seed);
            let out = m.add_sub(Felt::from_u64(start));
            let sum = (start as i128 + delta).clamp(0, u64::MAX as i128) as u64;
            assert_eq!(out.to_bytes_be(), bytes_of_u64(sum));
        }
        let mut m = Mutator::new(seed);
        let mut big = [0u8; 32];
        big[3] = 0x01;
        let out = m.add_sub(Felt::from_bytes_be(&big));
        assert_eq!(out.to_bytes_be(), bytes_of_u64(u64::MAX));
    }
}

fn draw_ranges(d: &mut Draws) -> (usize, usize, usize) {
    let src = d.range(0, 31);
    let dst = d.range(0, 31);
    let len = d.range(1, 32 - src.max(dst));
    (src, dst, len)
}

#[test]
fn swap_exchanges_the_drawn_runs() {
    for seed in 1..300u64 {
        let mut m = Mutator::new(seed);
        let mut d = Draws::seeded(seed);
        let (src, dst, len) = draw_ranges(&mut d);
        assert!(src + len <= 32 && dst + len <= 32 && len >= 1);
        let mut b = sample().to_bytes_be();
        for i in 0..len {
            b.swap(src + i, dst + i);
        }
        let out = m.swap(sample());
        assert_eq!(out.to_bytes_be(), Felt::from_bytes_be(&b).to_bytes_be());
    }
}

#[test]
fn copy_overwrites_the_drawn_run() {
    for seed in 1..300u64 {
        let mut m = Mutator::new(seed);
        let mut d = Draws::seeded(seed);
        let (src, dst, len) = draw_ranges(&mut d);
        let mut b = sample().to_bytes_be();
        for i in 0..len {
            b[dst + i] = b[src + i];
        }
        let out = m.copy(sample());
        assert_eq!(out.to_bytes_be(), Felt::from_bytes_be(&b).to_bytes_be());
    }
}

#[test]
fn inter_splice_inserts_the_drawn_run() {
    for seed in 1..300u64 {
        let mut m = Mutator::new(seed);
        let mut d = Draws::seeded(seed);
        let (src, dst, len) = draw_ranges(&mut d);
        let b = sample().to_bytes_be();
        let expected = insert(&b, dst, &b[src..src + len]);
        let out = m.inter_splice(sample());
        assert_eq!(out.to_bytes_be(), Felt::from_bytes_be(&expected).to_bytes_be());
    }
}

#[test]
fn magic_overwrite_writes_over_the_start() {
    let table = magic_values();
    for seed in 1..300u64 {
        let mut m = Mutator::new(seed);
        let mut d = Draws::seeded(seed);
        let pick = d.range(0, table.len() - 1);
        let mut b = sample().to_bytes_be();
        b[..table[pick].len()].copy_from_slice(&table[pick]);
        let out = m.magic_overwrite(sample());
        assert_eq!(out.to_bytes_be(), Felt::from_bytes_be(&b).to_bytes_be());
    }
}

#[test]
fn magic_insert_inserts_at_the_drawn_offset() {
    let table = magic_values();
    for seed in 1..300u64 {
        let mut m = Mutator::new(seed);
        let mut d = Draws::seeded(seed);
        let pick = d.range(0, table.len() - 1);
        let offset = d.range(0, 32);
        let expected = insert(&sample().to_bytes_be(), offset, &table[pick]);
        let out = m.magic_insert(sample());
        assert_eq!(out.to_bytes_be(), Felt::from_bytes_be(&expected).to_bytes_be());
    }
}

#[test]
fn random_overwrite_writes_fresh_bytes() {
    for seed in 1..300u64 {
        let mut m = Mutator::new(seed);
        let mut d = Draws::seeded(seed);
        let offset = d.range(0, 31);
        let amount = d.range(1, 32 - offset);
        let mut b = sample().to_bytes_be();
        for i in offset..offset + amount {
            b[i] = d.byte();
        }
        let out = m.random_overwrite(sample());
        assert_eq!(out.to_bytes_be(), Felt::from_bytes_be(&b).to_bytes_be());
        // the generator has moved on by 2 + amount words
        let mut fresh = Mutator::new(d.s);
        assert_eq!(
            m.mutate(Felt::from_u64(3)).to_bytes_be(),
            fresh.mutate(Felt::from_u64(3)).to_bytes_be()
        );
    }
}

#[test]
fn random_insert_inserts_a_run_of_one_byte() {
    for seed in 1..300u64 {
        let mut m = Mutator::new(seed);
        let mut d = Draws::seeded(seed);
        let offset = d.range(0, 32);
        let amount = d.range(0, 252 - 32);
        let byte = d.byte();
        let expected = insert(&sample().to_bytes_be(), offset, &vec![byte; amount]);
        let out = m.random_insert(sample());
        assert_eq!(out.to_bytes_be(), Felt::from_bytes_be(&expected).to_bytes_be());
    }
}

#[test]
fn byte_repeat_overwrite_repeats_forward() {
    for seed in 1..300u64 {
        let mut m = Mutator::new(seed);
        let mut d = Draws::seeded(seed);
        let offset = d.range(0, 31);
        let amount = d.range(1, 32 - offset);
        let mut b = sample().to_bytes_be();
        let val = b[offset];
        for i in offset + 1..offset + amount {
            b[i] = val;
        }
        let out = m.byte_repeat_overwrite(sample());
        assert_eq!(out.to_bytes_be(), Felt::from_bytes_be(&b).to_bytes_be());
    }
}

#[test]
fn byte_repeat_insert_inserts_a_run_of_the_byte() {
    for seed in 1..300u64 {
        let mut m = Mutator::new(seed);
        let mut d = Draws::seeded(seed);
        let offset = d.range(0, 31);
        let amount = d.range(0, 252 - 32);
        let b = sample().to_bytes_be();
        let expected = insert(&b, offset, &vec![b[offset]; amount]);
        let out = m.byte_repeat_insert(sample());
        assert_eq!(out.to_bytes_be(), Felt::from_bytes_be(&expected).to_bytes_be());
    }
}

#[test]
fn mutate_draws_the_strategy_then_runs_it() {
    for seed in 1..500u64 {
        let mut m = Mutator::new(seed);
        let mut d = Draws::seeded(seed);
        let index = d.range(0, 15);
        let mut by_hand = Mutator::new(d.s);
        let a = m.mutate(sample());
        let b = by_hand.apply(Strategy::from_index(index), sample());
        assert_eq!(a.to_bytes_be(), b.to_bytes_be());
    }
}

#[test]
fn mutate_returns_a_canonical_32_byte_value() {
    let prime = prime_bytes();
    let mut top = prime_bytes();
    top[31] = 0x00;
    let starts = [Felt::zero(), Felt::from_u64(1), sample(), Felt::from_bytes_be(&top)];
    for seed in 0..200u64 {
        let mut m = Mutator::new(seed);
        for start in starts.iter() {
            let mut f = *start;
            for _ in 0..20 {
                f = m.mutate(f);
                let b = f.to_bytes_be();
                assert_eq!(b.len(), 32);
                assert!(b < prime);
                assert_eq!(Felt::from_bytes_be(&b).to_bytes_be(), b);
            }
        }
    }
}

#[test]
fn every_strategy_returns_a_canonical_32_byte_value() {
    let prime = prime_bytes();
    for seed in 0..100u64 {
        for s in all_strategies() {
            let mut m = Mutator::new(seed);
            let b = m.apply(s, sample()).to_bytes_be();
            assert!(b < prime);
        }
    }
}

#[test]
fn same_seed_and_strategies_give_the_same_bytes() {
    let order: Vec<Strategy> = [0usize, 7, 12, 2, 9, 15, 13, 5, 11, 6, 1, 8, 10, 14, 3, 4]
        .iter()
        .map(|i| Strategy::from_index(*i))
        .collect();
    for seed in [0u64, 1, 42, u64::MAX] {
        let mut a = Mutator::new(seed);
        let mut b = Mutator::new(seed);
        let mut fa = sample();
        let mut fb = sample();
        for s in order.iter() {
            fa = a.apply(*s, fa);
            fb = b.apply(*s, fb);
            assert_eq!(fa.to_bytes_be(), fb.to_bytes_be());
        }
    }
}

#[test]
fn same_seed_gives_the_same_mutations() {
    let mut a = Mutator::new(2024);
    let mut b = Mutator::new(2024);
    let mut fa = sample();
    let mut fb = sample();
    for _ in 0..500 {
        fa = a.mutate(fa);
        fb = b.mutate(fb);
        assert_eq!(fa.to_bytes_be(), fb.to_bytes_be());
    }
}

#[test]
fn a_clone_draws_what_its_source_draws() {
    let mut a = Mutator::new(31);
    a.mutate(sample());
    let mut b = a.clone();
    for _ in 0..50 {
        assert_eq!(a.mutate(sample()).to_bytes_be(), b.mutate(sample()).to_bytes_be());
    }
}
