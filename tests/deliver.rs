use gnet::connection::ack::AckMask;
use gnet::connection::deliver::DeliveryManager;
use gnet::connection::parcel::ParcelIndex;

#[test]
fn delivery_manager_runs_out_of_indices() {
    let mut manager = DeliveryManager::default();
    for i in 0..=64 {
        assert_eq!(manager.next_index(), Some(ParcelIndex::from(i)));
    }
    assert_eq!(manager.next_index(), None);
}

#[test]
fn delivery_manager_follows_acknowledgements() {
    let mut manager = DeliveryManager::default();
    for _ in 0..=64 {
        manager.next_index().unwrap();
    }
    assert_eq!(manager.next_index(), None);
    // Index 65 needs index 1 acknowledged.
    manager.acknowledge(&AckMask::new(ParcelIndex(0)));
    assert_eq!(manager.next_index(), None);
    manager.acknowledge(&AckMask::new(ParcelIndex(1)));
    assert_eq!(manager.next_index(), Some(ParcelIndex(65)));
}
