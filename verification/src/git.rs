//! Version-control activity records and their helpers, re-exported under
//! the name of their source.

pub use crate::records::{
    CommitData, CommitStats, FileCategories, categorize_files, clone_records, group_by_date,
    is_config_file, is_doc_file, is_test_file,
};
