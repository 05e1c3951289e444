//! Export of part definitions to FMI, Modelica and SSP artefacts.
//!
//! - interface extraction (ports of a part definition as FMI variables),
//! - Modelica partial-model stubs generated from such an interface,
//! - SSP system structure descriptions (components and connections),
//! - the listing of exportable part definitions.
pub mod fmi;
pub mod modelica;
pub mod ssp;
