//! A scene graph and the instance buffers that follow it.
//!
//! A [`scene::Scene`] owns models and a tree of nodes. A node places
//! itself relative to its parent; a node that stands for an instance of a
//! model decides where that instance is drawn. Each frame the scene collects
//! the nodes that changed, brings their world transforms to the records of
//! their instances, and plans what has to be written to the device.
//!
//! Nothing here does arithmetic on scalars or touches a device. A scalar
//! is carried as a bit pattern, a world transform as the list of the
//! elementary transforms whose product it is, and what is to be done on the
//! device as a plan. The caller multiplies out and carries out.

pub mod model;
pub mod renderer;
pub mod scene;
pub mod transform;
