use genetic_optimizer::float_bits::less_or_equal;
use genetic_optimizer::population::{select, sort_descending};
use genetic_optimizer::{optimize, Individual, OptimizationTask, Population, PopulationParams};
use rand::Rng;

fn sin(x: u32) -> u32 {
    f32::from_bits(x).sin().to_bits()
}

fn identity(x: u32) -> u32 {
    x
}

fn coin(p: u32) -> bool {
    rand::thread_rng().gen_range(0.0f32..=1.0f32) <= f32::from_bits(p)
}

fn samples(min: f32, max: f32, n: usize) -> Vec<u32> {
    let mut rng = rand::thread_rng();
    (0..n).map(|_| rng.gen_range(min..=max).to_bits()).collect()
}

fn params(min: f32, max: f32, p: f32, n: usize) -> PopulationParams {
    PopulationParams {
        min_bound: min.to_bits(),
        max_bound: max.to_bits(),
        mutation_probability: p.to_bits(),
        population_size: n,
    }
}

fn build(min: f32, max: f32, p: f32, n: usize) -> Population<fn(u32) -> u32> {
    Population::new(params(min, max, p, n), &samples(min, max, n), sin as fn(u32) -> u32)
}

#[test]
fn test_create_population() {
    let p = build(0.0, 3.2, 0.1, 100);
    assert_eq!(p.population.len(), 100);

    for individual in p.population.iter() {
        assert!(individual.lefter_then(&p.right));
        assert!(individual.righter_then(&p.left));
    }
}

#[test]
fn test_next_generation() {
    let p1 = build(0.0, 3.2, 0.1, 100);
    let p2 = p1.next_generation(&coin);

    let mut diff = 0u32;
    p1.population.iter().zip(p2.population.iter()).for_each(|(i1, i2)| {
        if i1 != i2 {
            diff += 1;
        }
    });

    assert_ne!(diff, 0);
}

#[test]
fn next_generation_keeps_size_and_leaves_receiver_alone() {
    for n in [1usize, 2, 7, 30] {
        let p = build(-5.0, 5.0, 0.5, n);
        let before: Vec<(u32, u32)> = p.population.iter().map(|i| (i.x, i.y)).collect();
        let mut q = p.next_generation(&coin);
        for _ in 0..10 {
            q = q.next_generation(&coin);
            assert_eq!(q.population.len(), n);
            assert_eq!(q.size, n);
        }
        let after: Vec<(u32, u32)> = p.population.iter().map(|i| (i.x, i.y)).collect();
        assert_eq!(before, after);
        assert_eq!(q.left.x, p.left.x);
        assert_eq!(q.right.x, p.right.x);
    }
}

#[test]
fn members_stay_within_the_bounds() {
    let mut p = build(-1.0, 1.0, 1.0, 40);
    for _ in 0..30 {
        p = p.next_generation(&coin);
        for m in p.population.iter() {
            let x = f32::from_bits(m.x);
            assert!(x.is_finite() && (-1.0..=1.0).contains(&x));
        }
    }
}

#[test]
fn odd_population_mates_floor_half() {
    let p = build(0.0, 1.0, 0.0, 5);
    let mut kids: Vec<Individual> = Vec::new();
    let pairs = p.produce_descendants(&p.population, &mut kids, &coin);
    assert_eq!(pairs, 2);
    assert!(kids.len() <= 4);
    let p = build(0.0, 1.0, 0.0, 1);
    let mut kids: Vec<Individual> = Vec::new();
    assert_eq!(p.produce_descendants(&p.population, &mut kids, &coin), 0);
    assert!(kids.is_empty());
}

#[test]
fn append_child_filters_descendants() {
    let p = Population::new(params(0.0, 2.0, 0.0, 1), &vec![1.0f32.to_bits()], identity);
    let mut kids: Vec<Individual> = Vec::new();
    p.append_child(&mut kids, Individual::new((-0.5f32).to_bits(), &identity));
    p.append_child(&mut kids, Individual::new(2.5f32.to_bits(), &identity));
    p.append_child(&mut kids, Individual::new(f32::NAN.to_bits(), &identity));
    p.append_child(&mut kids, Individual::new(f32::INFINITY.to_bits(), &identity));
    assert!(kids.is_empty());
    p.append_child(&mut kids, Individual::new(0.0f32.to_bits(), &identity));
    p.append_child(&mut kids, Individual::new(2.0f32.to_bits(), &identity));
    p.append_child(&mut kids, Individual::new(1.5f32.to_bits(), &identity));
    let xs: Vec<u32> = kids.iter().map(|k| k.x).collect();
    assert_eq!(xs, vec![0.0f32.to_bits(), 2.0f32.to_bits(), 1.5f32.to_bits()]);
}

#[test]
fn survivors_are_the_fittest_of_members_and_descendants() {
    let xs = [0.5f32, 3.0, 1.0];
    let s: Vec<u32> = xs.iter().map(|x| x.to_bits()).collect();
    let p = Population::new(params(0.0, 4.0, 0.0, 3), &s, identity);
    let kids = vec![
        Individual::new(2.0f32.to_bits(), &identity),
        Individual::new(0.25f32.to_bits(), &identity),
    ];
    let q = p.survivors(&kids);
    let got: Vec<f32> = q.population.iter().map(|i| f32::from_bits(i.x)).collect();
    assert_eq!(got, vec![3.0, 2.0, 1.0]);
    assert_eq!(q.size, 3);
}

#[test]
fn all_descendants_rejected_keeps_the_best_parents() {
    let s = vec![1.0f32.to_bits(), 2.0f32.to_bits()];
    let p = Population::new(params(1.0, 2.0, 0.0, 2), &s, identity);
    let q = p.survivors(&Vec::new());
    let got: Vec<f32> = q.population.iter().map(|i| f32::from_bits(i.x)).collect();
    assert_eq!(got, vec![2.0, 1.0]);
}

#[test]
fn sort_and_select_order_by_fitness() {
    let pool: Vec<Individual> = [1.0f32, -3.0, 7.5, 0.0, 7.5]
        .iter()
        .map(|x| Individual::new(x.to_bits(), &identity))
        .collect();
    let sorted = sort_descending(&pool);
    let ys: Vec<f32> = sorted.iter().map(|i| f32::from_bits(i.y)).collect();
    assert_eq!(ys, vec![7.5, 7.5, 1.0, 0.0, -3.0]);
    let top = select(&pool, 2);
    assert_eq!(top.len(), 2);
    assert_eq!(f32::from_bits(top[1].y), 7.5);
    assert!(select(&pool, 0).is_empty());
    assert!(sort_descending(&Vec::new()).is_empty());
}

#[test]
fn fittest_takes_the_last_of_equal_maxima() {
    let s = vec![(-2.0f32).to_bits(), 1.0f32.to_bits(), 2.0f32.to_bits(), 0.5f32.to_bits()];
    let square = |x: u32| {
        let v = f32::from_bits(x);
        (v * v).to_bits()
    };
    let p = Population::new(params(-3.0, 3.0, 0.0, 4), &s, square);
    assert_eq!(p.fittest().x, 2.0f32.to_bits());
}

#[test]
fn optimize_sin_converges_near_half_pi() {
    let n = 200usize;
    let task = OptimizationTask {
        min_bound: 0.0f32.to_bits(),
        max_bound: std::f32::consts::PI.to_bits(),
        mutation_probability: 0.5f32.to_bits(),
        population_size: n,
        fitness_function: sin,
        generations: 40,
    };
    let s = samples(0.0, std::f32::consts::PI, n);
    let x = f32::from_bits(optimize(task, &s, &coin));
    assert!((x - std::f32::consts::FRAC_PI_2).abs() < 0.05);
}

#[test]
fn optimize_without_generations_returns_the_best_sample() {
    let s = vec![0.25f32.to_bits(), 0.75f32.to_bits(), 0.5f32.to_bits()];
    let task = OptimizationTask {
        min_bound: 0.0f32.to_bits(),
        max_bound: 1.0f32.to_bits(),
        mutation_probability: 0.0f32.to_bits(),
        population_size: 3,
        fitness_function: identity,
        generations: 0,
    };
    assert_eq!(optimize(task, &s, &coin), 0.75f32.to_bits());
}

#[test]
fn descendants_follow_pair_then_slot_order() {
    let s = vec![1.5f32.to_bits(), 0.1f32.to_bits(), 2.5f32.to_bits(), 3.0f32.to_bits(), 1.0f32.to_bits()];
    let p = Population::new(params(0.0, 10.0, 0.0, 5), &s, identity);
    let never = |_p: u32| false;
    let mut kids: Vec<Individual> = Vec::new();
    let pairs = p.produce_descendants(&p.population, &mut kids, &never);
    assert_eq!(pairs, 2);
    let xs: Vec<u32> = kids.iter().map(|k| k.x).collect();
    assert_eq!(xs, vec![0x3fc0_cccd, 0x3dcc_0000, 0x4020_0000, 0x4040_0000]);
    let ys: Vec<u32> = kids.iter().map(|k| k.y).collect();
    assert_eq!(xs, ys);
}

#[test]
fn nan_and_infinity_are_not_within_bounds() {
    assert!(less_or_equal(0.0f32.to_bits(), (-0.0f32).to_bits()));
    assert!(less_or_equal((-1.0f32).to_bits(), 1.0f32.to_bits()));
    assert!(!less_or_equal(1.0f32.to_bits(), (-1.0f32).to_bits()));
    assert!(!less_or_equal(f32::NAN.to_bits(), 1.0f32.to_bits()));
    assert!(less_or_equal(1.0f32.to_bits(), f32::INFINITY.to_bits()));
    assert!(!less_or_equal(f32::INFINITY.to_bits(), f32::MAX.to_bits()));
}
