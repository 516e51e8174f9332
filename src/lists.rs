pub mod dlist;
pub mod dlist_laws;
pub mod list;
pub mod imlist;
pub mod queue;
pub mod unque;
