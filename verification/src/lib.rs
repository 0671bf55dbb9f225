//! Verified core of a CAD data-exchange toolkit: byte and text encoders for
//! manufacturing and geometry file formats, parsers for their textual
//! structure, and the discrete bookkeeping of the modelling kernel.
pub mod bytes;
pub mod text;
pub mod bgcode;
pub mod threemf;
pub mod ruida;
pub mod gltf;
pub mod iges;
pub mod strs;
pub mod step;
pub mod step_read;
pub mod step_write;
pub mod step_entities;
pub mod step_ap;
pub mod kicad;
pub mod parametric;
pub mod drawing;
pub mod obj;
pub mod brep;
pub mod solid;
pub mod gerber;
pub mod touchstone;
pub mod idf;
pub mod ufp;
pub mod shell;
pub mod step_solid;
pub mod loft;
pub mod fillet;
pub mod boolean;
pub mod parasolid;
pub mod dxf;
pub mod dxf_roundtrip;
pub mod touchstone_roundtrip;
pub mod parasolid_roundtrip;
pub mod gerber_roundtrip;
pub mod step_roundtrip;
pub mod step_faces_roundtrip;
pub mod threemf_roundtrip;
