//! What goes into and comes out of the database: persistent symbol ids,
//! the rows an ingest writes, and the graph rebuilt from stored rows.
pub mod ingest;
pub mod laws;
pub mod rows;
