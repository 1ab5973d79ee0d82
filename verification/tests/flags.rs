use vleue_navigator::asset_loaders::NavMeshPolyanyaLoader;
use vleue_navigator::flags::TrimeshFlags;
use vleue_navigator::obstacles::up_is_mirrored;

#[test]
fn flag_bits() {
    assert_eq!(TrimeshFlags::half_edge_topology().bits(), 1);
    assert_eq!(TrimeshFlags::delete_duplicate_triangles().bits(), 64);
    assert_eq!(TrimeshFlags::fix_internal_edges().bits(), 0b1001_1000);
    assert_eq!(TrimeshFlags::empty().bits(), 0);
    assert_eq!(TrimeshFlags::all().bits(), 0xff);
    assert!(TrimeshFlags::all().is_all());
    assert!(TrimeshFlags::empty().is_empty());
}

#[test]
fn fix_internal_edges_contains_its_parts() {
    let f = TrimeshFlags::fix_internal_edges();
    assert!(f.contains(TrimeshFlags::oriented()));
    assert!(f.contains(TrimeshFlags::merge_duplicate_vertices()));
    assert!(!f.contains(TrimeshFlags::half_edge_topology()));
}

#[test]
fn flag_set_operations() {
    let a = TrimeshFlags::oriented().union(TrimeshFlags::connected_components());
    assert_eq!(a.bits(), 10);
    assert_eq!(a.intersection(TrimeshFlags::oriented()).bits(), 8);
    assert_eq!(a.difference(TrimeshFlags::oriented()).bits(), 2);
    assert_eq!(a.symmetric_difference(TrimeshFlags::fix_internal_edges()).bits(), 0b1001_0010);
    assert_eq!(a.complement().bits(), !10u8);
    assert!(a.intersects(TrimeshFlags::oriented()));
    assert!(!a.intersects(TrimeshFlags::delete_degenerate_triangles()));
    let mut b = TrimeshFlags::empty();
    b.insert(TrimeshFlags::delete_bad_topology_triangles());
    assert_eq!(b.bits(), 4);
    b.set(TrimeshFlags::oriented(), true);
    assert_eq!(b.bits(), 12);
    b.toggle(TrimeshFlags::delete_bad_topology_triangles());
    assert_eq!(b.bits(), 8);
    b.remove(TrimeshFlags::oriented());
    assert!(b.is_empty());
    b.set(TrimeshFlags::oriented(), false);
    assert!(b.is_empty());
}

#[test]
fn flags_from_bits() {
    assert_eq!(TrimeshFlags::from_bits(0b1010_0101).map(|f| f.bits()), Some(0b1010_0101));
    assert_eq!(TrimeshFlags::from_bits_truncate(255).bits(), 255);
    assert_eq!(TrimeshFlags::from_bits_retain(3), TrimeshFlags::half_edge_topology().union(TrimeshFlags::connected_components()));
}

#[test]
fn mirrored_up_counts_negative_axes() {
    assert!(!up_is_mirrored(0b000));
    assert!(up_is_mirrored(0b001));
    assert!(up_is_mirrored(0b010));
    assert!(!up_is_mirrored(0b011));
    assert!(up_is_mirrored(0b111));
    assert!(!up_is_mirrored(u32::MAX));
}

#[test]
fn loader_reads_polyanya_mesh_files() {
    assert_eq!(NavMeshPolyanyaLoader.extensions(), ["polyanya.mesh"]);
    assert_eq!(NavMeshPolyanyaLoader::default().extensions().len(), 1);
}
