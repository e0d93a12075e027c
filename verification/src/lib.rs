pub mod field;
pub mod limbs;
pub mod table;
pub mod dsl;
pub mod script;
pub mod script_run;
