pub mod app_errors;
