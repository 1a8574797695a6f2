use asset_pipeline::model_crate::{Mesh, ModelCrate, Object, StructuralError};
use asset_pipeline::scene::{fan_out, Update, UpdateQueue};

#[test]
fn updates_leave_in_the_order_in_which_they_came() {
    let mut queue = UpdateQueue::new(8);
    for update in fan_out(&vec![4, 2, 9], 7) {
        assert!(queue.enqueue(update));
    }
    assert_eq!(queue.len(), 3);
    assert_eq!(
        queue.drain(),
        vec![
            Update { entity: 4, object: 7 },
            Update { entity: 2, object: 7 },
            Update { entity: 9, object: 7 },
        ]
    );
    assert_eq!(queue.len(), 0);
    assert_eq!(queue.drain(), Vec::new());
    assert_eq!(queue.capacity(), 8);
}

#[test]
fn a_full_queue_refuses_an_update() {
    let mut queue = UpdateQueue::new(2);
    assert!(queue.enqueue(Update { entity: 1, object: 1 }));
    assert!(queue.enqueue(Update { entity: 2, object: 1 }));
    assert!(!queue.enqueue(Update { entity: 3, object: 1 }));
    assert_eq!(queue.len(), 2);
    assert_eq!(queue.drain(), vec![Update { entity: 1, object: 1 }, Update { entity: 2, object: 1 }]);
    assert!(queue.enqueue(Update { entity: 3, object: 1 }));
    let mut none = UpdateQueue::new(0);
    assert!(!none.enqueue(Update { entity: 1, object: 1 }));
}

#[test]
fn nobody_asked_nobody_is_updated() {
    assert_eq!(fan_out(&Vec::new(), 7), Vec::new());
}

#[test]
fn an_import_without_an_object_has_failed() {
    assert_eq!(
        ModelCrate::imported(vec![Mesh { triangles: 3 }], Vec::new(), Vec::new()),
        Err(StructuralError::MissingRootObject)
    );
    let object = Object { collider: None, components: Vec::new() };
    let model = ModelCrate::imported(vec![Mesh { triangles: 3 }], Vec::new(), vec![object.clone()]).unwrap();
    assert_eq!(model.meshes, vec![Mesh { triangles: 3 }]);
    assert_eq!(model.objects, vec![object]);
    assert!(model.transforms.is_empty());
    assert!(!model.finalized);
    assert_eq!(model.collider, None);
}
