pub mod cons;
pub mod list;
pub mod std_list;
