use hexsphere::tiles::{Biome, Tile, TileAttributes, TileResource};

#[test]
fn cost_table_impassable() {
    assert_eq!(Biome::Mountain.cost(), None);
    assert_eq!(Biome::DeepWater.cost(), None);
}

#[test]
fn cost_table_passable_increasing() {
    assert_eq!(Biome::Plains.cost(), Some(1));
    assert_eq!(Biome::Forest.cost(), Some(5));
    assert_eq!(Biome::Desert.cost(), Some(10));
    assert_eq!(Biome::ShallowWater.cost(), Some(12));
    assert_eq!(Biome::Snow.cost(), Some(13));
    let costs = [1u32, 5, 10, 12, 13];
    for w in costs.windows(2) {
        assert!(w[0] < w[1]);
    }
}

#[test]
fn classifier_boundary_scenarios() {
    // elevation and moisture in hundredths: -50 stands for -0.50
    assert_eq!(Biome::from_elevation_and_moisture(-50, 5), Biome::DeepWater);
    assert_eq!(Biome::from_elevation_and_moisture(-50, 15), Biome::ShallowWater);
    assert_eq!(Biome::from_elevation_and_moisture(5, 50), Biome::Plains);
    assert_eq!(Biome::from_elevation_and_moisture(45, 90), Biome::Mountain);
}

#[test]
fn classifier_high_ground_is_always_mountain() {
    for moisture in [-10, 0, 5, 16, 33, 50, 66, 99, 100, 250] {
        assert_eq!(Biome::from_elevation_and_moisture(40, moisture), Biome::Mountain);
        assert_eq!(Biome::from_elevation_and_moisture(1000, moisture), Biome::Mountain);
    }
}

#[test]
fn classifier_below_sea_level_band() {
    assert_eq!(Biome::from_elevation_and_moisture(-1, 9), Biome::DeepWater);
    assert_eq!(Biome::from_elevation_and_moisture(-1, 10), Biome::ShallowWater);
    assert_eq!(Biome::from_elevation_and_moisture(-1, 19), Biome::ShallowWater);
    assert_eq!(Biome::from_elevation_and_moisture(-1, 20), Biome::Plains);
    assert_eq!(Biome::from_elevation_and_moisture(-100, 100), Biome::Plains);
}

#[test]
fn classifier_shore_band() {
    assert_eq!(Biome::from_elevation_and_moisture(0, 32), Biome::ShallowWater);
    assert_eq!(Biome::from_elevation_and_moisture(0, 33), Biome::Plains);
    assert_eq!(Biome::from_elevation_and_moisture(9, 65), Biome::Plains);
    assert_eq!(Biome::from_elevation_and_moisture(9, 66), Biome::Forest);
}

#[test]
fn classifier_low_hills_band() {
    assert_eq!(Biome::from_elevation_and_moisture(10, 15), Biome::ShallowWater);
    assert_eq!(Biome::from_elevation_and_moisture(10, 16), Biome::Plains);
    assert_eq!(Biome::from_elevation_and_moisture(15, 32), Biome::Plains);
    assert_eq!(Biome::from_elevation_and_moisture(15, 33), Biome::Forest);
    assert_eq!(Biome::from_elevation_and_moisture(19, 65), Biome::Forest);
    assert_eq!(Biome::from_elevation_and_moisture(19, 66), Biome::Mountain);
}

#[test]
fn classifier_mid_hills_band() {
    assert_eq!(Biome::from_elevation_and_moisture(20, 15), Biome::Plains);
    assert_eq!(Biome::from_elevation_and_moisture(20, 16), Biome::Forest);
    assert_eq!(Biome::from_elevation_and_moisture(29, 32), Biome::Forest);
    assert_eq!(Biome::from_elevation_and_moisture(29, 33), Biome::Mountain);
}

#[test]
fn classifier_high_hills_band() {
    assert_eq!(Biome::from_elevation_and_moisture(30, 15), Biome::Forest);
    assert_eq!(Biome::from_elevation_and_moisture(30, 16), Biome::Mountain);
    assert_eq!(Biome::from_elevation_and_moisture(39, 0), Biome::Forest);
    assert_eq!(Biome::from_elevation_and_moisture(39, 99), Biome::Mountain);
}

#[test]
fn simple_biome_ladder() {
    assert_eq!(Biome::simple_biome(5), Biome::Plains);
    assert_eq!(Biome::simple_biome(35), Biome::Mountain);
    assert_eq!(Biome::simple_biome(50), Biome::Snow);
    assert_eq!(Biome::simple_biome(-3), Biome::Plains);
    assert_eq!(Biome::simple_biome(9), Biome::Plains);
    assert_eq!(Biome::simple_biome(10), Biome::Forest);
    assert_eq!(Biome::simple_biome(19), Biome::Forest);
    assert_eq!(Biome::simple_biome(20), Biome::Desert);
    assert_eq!(Biome::simple_biome(29), Biome::Desert);
    assert_eq!(Biome::simple_biome(30), Biome::Mountain);
    assert_eq!(Biome::simple_biome(39), Biome::Mountain);
    assert_eq!(Biome::simple_biome(40), Biome::Snow);
}

#[test]
fn resource_table_order() {
    let expected = [
        TileResource::Wood,
        TileResource::Stone,
        TileResource::Iron,
        TileResource::Nitre,
        TileResource::Coal,
        TileResource::Oil,
        TileResource::Uranium,
        TileResource::Tea,
        TileResource::Marble,
        TileResource::Salt,
        TileResource::Copper,
        TileResource::Diamond,
        TileResource::Ivory,
        TileResource::Banana,
        TileResource::Wheat,
        TileResource::Rice,
        TileResource::Sugar,
        TileResource::Spices,
    ];
    for (i, want) in expected.iter().enumerate() {
        assert_eq!(TileResource::get_from_number(i as i32), Some(*want));
    }
}

#[test]
fn resource_boundary_scenarios() {
    assert_eq!(TileResource::get_from_number(0), Some(TileResource::Wood));
    assert_eq!(TileResource::get_from_number(17), Some(TileResource::Spices));
    assert_eq!(TileResource::get_from_number(18), None);
    assert_eq!(TileResource::get_from_number(-1), None);
    assert_eq!(TileResource::get_from_number(25), None);
    assert_eq!(TileResource::get_from_number(i32::MAX), None);
    assert_eq!(TileResource::get_from_number(i32::MIN), None);
}

#[test]
fn tile_assembly_and_cost() {
    let t = Tile::new(
        Biome::Forest,
        3,
        1,
        2,
        Some(TileResource::Iron),
        Some(TileResource::Tea),
    );
    assert_eq!(t.biome, Biome::Forest);
    assert_eq!(t.attributes.production(), 3);
    assert_eq!(t.attributes.science(), 1);
    assert_eq!(t.attributes.attractiveness(), 2);
    assert_eq!(t.strategic_resource, Some(TileResource::Iron));
    assert_eq!(t.trade_resource, Some(TileResource::Tea));
    assert_eq!(t.cost(), Some(5));

    let impassable = Tile::new(Biome::DeepWater, 0, 0, 0, None, None);
    assert_eq!(impassable.cost(), None);
}

#[test]
fn tile_defaults() {
    let t = Tile::default();
    assert_eq!(t.biome, Biome::Plains);
    assert_eq!(t.attributes, TileAttributes::default());
    assert_eq!(t.strategic_resource, None);
    assert_eq!(t.trade_resource, None);
    assert_eq!(t.cost(), Some(1));
    let a = TileAttributes::default();
    assert_eq!(a.production(), 0);
    assert_eq!(a.science(), 0);
    assert_eq!(a.attractiveness(), 0);
}
