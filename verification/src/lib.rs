//! Shipment tracking on a shared ledger: the rules by which a shipment's
//! status changes, the append-only event log with its indices, and the
//! decisions of the worker that forwards logged events to a listener.

pub mod ocw_weather;
pub mod organizations;
pub mod product_registry;
pub mod product_tracking;
pub mod rbac;
pub mod registrar;
pub mod system;
pub mod table;
pub mod template;
