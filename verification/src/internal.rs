pub mod hash_table;
pub mod rb_tree;
