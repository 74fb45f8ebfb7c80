//! Bank statements as FinTS servers deliver them: CAMT account reports, MT940
//! statements and the interim statements that list pending transactions.

pub mod amount;
pub mod camt;
pub mod camt_assign;
pub mod camt_element_laws;
pub mod camt_laws;
pub mod camt_text_laws;
pub mod camt_types;
pub mod date;
pub mod error;
pub mod field_laws;
pub mod fields;
pub mod mt940_laws;
pub mod mt940_line_laws;
pub mod mt940_parse;
pub mod pending;
pub mod pending_laws;
pub mod pending_line_laws;
pub mod statement;
pub mod summaries;
pub mod summary_laws;
pub mod text;
pub mod text_laws;
pub mod types;
pub mod view_laws;
pub mod writing_laws;
pub mod xml;
