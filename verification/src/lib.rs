//! Planning and conversion logic for dumping a MySQL table as gzipped JSON lines
//! for Redshift: the select queries that read the table (optionally split into
//! ranges of a partition column), the conversion of one row into a JSON record,
//! and the naming of the uploaded objects.

pub mod text;
pub mod calendar;
pub mod partition;
pub mod query;
pub mod record;
pub mod upload;
pub mod compress;
