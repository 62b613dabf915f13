//! Verified core of a validator for open-data CSV files: encoding detection,
//! detection of corrupt characters, column-name normalisation, per-cell
//! cleaning of columns, and the bookkeeping of a queue of uploads.

pub mod caracteres;
pub mod texto;
pub mod externos;
pub mod nombres;
pub mod estabilidad;
pub mod columnas;
pub mod tabla;
pub mod cola;
pub mod codificacion;
pub mod instituciones;
pub mod rutas;
