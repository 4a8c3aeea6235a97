use bar_data::hash::{
    gradient_index, hash, hash_cell, noise_type_discriminant, pcg_hash, periodic_gradient_index, DetailNormalPreset,
    NoiseType,
};

/// The PCG hash as written with wrapping arithmetic.
fn reference_pcg(input: u32) -> u32 {
    let state = input.wrapping_mul(747796405).wrapping_add(2891336453);
    let word = ((state >> ((state >> 28).wrapping_add(4))) ^ state).wrapping_mul(277803737);
    (word >> 22) ^ word
}

#[test]
fn pcg_hash_known_values() {
    for x in [0u32, 1, 2, 42, 1337, 0xDEAD_BEEF, u32::MAX] {
        assert_eq!(pcg_hash(x), reference_pcg(x));
    }
    // Distinct inputs spread out.
    assert_ne!(pcg_hash(0), pcg_hash(1));
}

#[test]
fn hash_cell_is_pcg_of_lattice_key() {
    for (ix, iy, seed) in [(0, 0, 0u32), (3, -7, 42), (-1, -1, 7), (i32::MAX, i32::MIN, u32::MAX)] {
        let key = (ix as u32)
            .wrapping_mul(1_597_334_677)
            .wrapping_add((iy as u32).wrapping_mul(3_812_015_801))
            .wrapping_add(seed.wrapping_mul(2_654_435_761));
        assert_eq!(hash_cell(ix, iy, seed), pcg_hash(key));
        // The detail-normal lattice uses the same hash.
        assert_eq!(hash(ix, iy, seed), hash_cell(ix, iy, seed));
    }
}

#[test]
fn gradient_indices_are_low_three_bits() {
    for (x, y) in [(0, 0), (5, 9), (-3, 2)] {
        assert_eq!(gradient_index(x, y, 11), hash_cell(x, y, 11) & 7);
        assert!(gradient_index(x, y, 11) < 8);
    }
}

#[test]
fn periodic_lattice_tiles() {
    let period = 8;
    for (x, y) in [(0, 0), (3, 5), (7, 7), (-1, -9)] {
        let g = periodic_gradient_index(x, y, period, 1337);
        assert_eq!(periodic_gradient_index(x + period, y, period, 1337), g);
        assert_eq!(periodic_gradient_index(x, y - 2 * period, period, 1337), g);
        assert_eq!(g, hash(x.rem_euclid(period), y.rem_euclid(period), 1337) & 7);
    }
}

#[test]
fn noise_type_discriminants() {
    assert_eq!(noise_type_discriminant(NoiseType::Perlin), 0);
    assert_eq!(noise_type_discriminant(NoiseType::Simplex), 0);
    assert_eq!(noise_type_discriminant(NoiseType::Ridged), 1);
    assert_eq!(noise_type_discriminant(NoiseType::Billow), 2);
    assert_eq!(noise_type_discriminant(NoiseType::Worley), 0);
}

#[test]
fn preset_labels() {
    assert_eq!(DetailNormalPreset::Rock.label(), "Rock");
    assert_eq!(DetailNormalPreset::Gravel.label(), "Gravel");
    assert_eq!(DetailNormalPreset::Sand.label(), "Sand");
}
