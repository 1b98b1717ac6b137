use otty_surface::block::model::{BlockMetadata, BlockOutcome, MetadataPatch};

#[test]
fn metadata_patch_keeps_fields_omitted_by_sparse_completion() {
    let mut metadata = BlockMetadata::default();
    metadata.apply_patch(MetadataPatch::command_start(
        Some(String::from("printf stable")),
        Some(String::from("/before")),
        Some(10),
    ));

    metadata.apply_patch(MetadataPatch::completion(
        &BlockOutcome::Exited(7),
        None,
        Some(20),
    ));

    assert_eq!(metadata.command(), Some("printf stable"));
    assert_eq!(metadata.cwd_before(), Some("/before"));
    assert_eq!(metadata.cwd_after(), None);
    assert_eq!(metadata.started_at(), Some(10));
    assert_eq!(metadata.finished_at(), Some(20));
    assert_eq!(metadata.exit_code(), Some(7));
}
