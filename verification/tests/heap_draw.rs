use bataille::{draw, rank, suit, take, Card, RngKeccak256, N_CARDS, N_FAMILIES, N_VALUES};
use rand::Rng;

fn deck() -> Vec<Card> {
    (0..N_CARDS).collect()
}

#[test]
fn deck_constants() {
    assert_eq!(N_CARDS, 52);
    assert_eq!(N_FAMILIES, 4);
    assert_eq!(N_VALUES, 13);
    assert_eq!(N_FAMILIES * N_VALUES, N_CARDS);
}

#[test]
fn rank_and_suit_of_cards() {
    assert_eq!((rank(0), suit(0)), (0, 0));
    assert_eq!((rank(12), suit(12)), (12, 0));
    assert_eq!((rank(13), suit(13)), (0, 1));
    assert_eq!((rank(30), suit(30)), (4, 2));
    assert_eq!((rank(51), suit(51)), (12, 3));
    for card in 0..N_CARDS {
        assert!(rank(card) < N_VALUES);
        assert!(suit(card) < N_FAMILIES);
        assert_eq!(suit(card) * N_VALUES + rank(card), card);
    }
}

#[test]
fn take_moves_the_last_card_into_the_gap() {
    let mut heap: Vec<Card> = vec![10, 20, 30, 40];
    assert_eq!(take(&mut heap, 1), 20);
    assert_eq!(heap, vec![10, 40, 30]);
    assert_eq!(take(&mut heap, 0), 10);
    assert_eq!(heap, vec![30, 40]);
}

#[test]
fn take_the_last_card() {
    let mut heap: Vec<Card> = vec![10, 20, 30];
    assert_eq!(take(&mut heap, 2), 30);
    assert_eq!(heap, vec![10, 20]);
}

#[test]
fn take_the_only_card() {
    let mut heap: Vec<Card> = vec![7];
    assert_eq!(take(&mut heap, 0), 7);
    assert!(heap.is_empty());
}

#[test]
fn draw_picks_the_place_the_sampler_picks() {
    // Places worked out by hand from the first words of each stream.
    for (entropy, size, place) in [
        (&[][..], 52u8, 42usize),
        (&[][..], 51, 19),
        (&[][..], 4, 3),
        (&[][..], 2, 1),
        (&b"drand"[..], 52, 15),
        (&b"drand"[..], 4, 1),
        (&[1u8, 2, 3][..], 52, 48),
        (&[1u8, 2, 3][..], 51, 47),
        (&[1u8, 2, 3][..], 4, 0),
    ] {
        let mut heap: Vec<Card> = (0..size).collect();
        let mut expected = heap.clone();
        let mut rng = RngKeccak256::seed(entropy);
        let card = draw(&mut rng, &mut heap);
        assert_eq!(card as usize, place);
        assert_eq!(take(&mut expected, place), card);
        assert_eq!(heap, expected);
    }
}

#[test]
fn draw_agrees_with_the_sampler_on_a_twin_generator() {
    for seed in 0u32..200 {
        let size = 1 + (seed % 52) as u8;
        let mut heap: Vec<Card> = (0..size).map(|c| 51 - c).collect();
        let mut expected = heap.clone();
        let mut rng = RngKeccak256::seed(&seed.to_be_bytes());
        let mut twin = RngKeccak256::seed(&seed.to_be_bytes());
        let place: u32 = twin.gen_range(0..size as u32);
        let card = draw(&mut rng, &mut heap);
        assert_eq!(card, take(&mut expected, place as usize));
        assert_eq!(heap, expected);
        // Both generators have spent the same blocks.
        assert_eq!(rng.rand256(), twin.rand256());
    }
}

#[test]
fn draw_spends_a_block_for_every_word_the_sampler_reads() {
    // With this seed the sampler turns down the first word for a range of 3.
    let seed = 0u32.to_be_bytes();
    let mut heap: Vec<Card> = vec![5, 6, 7];
    let mut rng = RngKeccak256::seed(&seed);
    assert_eq!(draw(&mut rng, &mut heap), 7);
    let mut fresh = RngKeccak256::seed(&seed);
    let _ = fresh.rand256();
    let _ = fresh.rand256();
    assert_eq!(rng.rand256(), fresh.rand256());
}

#[test]
fn draw_from_a_heap_of_one() {
    let mut heap: Vec<Card> = vec![33];
    let mut rng = RngKeccak256::seed(b"one");
    assert_eq!(draw(&mut rng, &mut heap), 33);
    assert!(heap.is_empty());
}

#[test]
fn draw_is_determined_by_the_seed() {
    for seed in 0u8..50 {
        let mut a = deck();
        let mut b = deck();
        let mut rng_a = RngKeccak256::seed(&[seed]);
        let mut rng_b = RngKeccak256::seed(&[seed]);
        for _ in 0..52 {
            assert_eq!(draw(&mut rng_a, &mut a), draw(&mut rng_b, &mut b));
            assert_eq!(a, b);
        }
    }
}

#[test]
fn drawing_a_heap_out_gives_every_card_once() {
    let mut heap = deck();
    let mut rng = RngKeccak256::seed(b"all of them");
    let mut drawn = Vec::new();
    while !heap.is_empty() {
        let before = heap.len();
        let card = draw(&mut rng, &mut heap);
        assert_eq!(heap.len(), before - 1);
        assert!(!heap.contains(&card));
        drawn.push(card);
    }
    drawn.sort();
    assert_eq!(drawn, deck());
}

#[test]
fn draws_are_spread_evenly_over_the_heap() {
    let size = 8usize;
    let trials = 8000u32;
    let mut counts = vec![0u32; size];
    for t in 0..trials {
        let mut heap: Vec<Card> = (0..size as u8).collect();
        let mut rng = RngKeccak256::seed(&t.to_be_bytes());
        counts[draw(&mut rng, &mut heap) as usize] += 1;
    }
    let expected = trials as f64 / size as f64;
    let mut chi_square = 0.0f64;
    for c in &counts {
        let d = *c as f64 - expected;
        chi_square += d * d / expected;
    }
    // Seven degrees of freedom: 24.32 is passed with probability 0.001.
    assert!(chi_square < 24.32, "chi-square {} over {:?}", chi_square, counts);
}

#[test]
fn orders_of_drawing_are_spread_evenly() {
    // The six orders in which three cards can leave a heap.
    let trials = 6000u32;
    let mut counts = [0u32; 6];
    for t in 0..trials {
        let mut heap: Vec<Card> = vec![0, 1, 2];
        let mut rng = RngKeccak256::seed(&(t + 1_000_000).to_be_bytes());
        let first = draw(&mut rng, &mut heap);
        let second = draw(&mut rng, &mut heap);
        let order = match (first, second) {
            (0, 1) => 0,
            (0, 2) => 1,
            (1, 0) => 2,
            (1, 2) => 3,
            (2, 0) => 4,
            (2, 1) => 5,
            _ => unreachable!(),
        };
        counts[order] += 1;
    }
    let expected = trials as f64 / 6.0;
    let mut chi_square = 0.0f64;
    for c in &counts {
        let d = *c as f64 - expected;
        chi_square += d * d / expected;
    }
    // Five degrees of freedom: 20.52 is passed with probability 0.001.
    assert!(chi_square < 20.52, "chi-square {} over {:?}", chi_square, counts);
}
