# topoflow

Half-edge mesh topology for retopology work, verified with Verus.

- `src/` is the verified library: the half-edge mesh (`mesh::halfedge`), building it
  from indexed faces (`mesh::construction`), walks around faces and vertices
  (`mesh::traversal`), edge collapse and flip (`mesh::topology`), the quality report
  (`mesh::validation`), named attributes (`mesh::attributes`), the laws that tie these
  together (`mesh::laws`), what a collapse between two triangles does and why it keeps
  a mesh valid and watertight (`mesh::collapse_laws`), how collapse and flip change the edges and the Euler
  characteristic (`mesh::euler`), the `.obj` line grammar, face assembly and face-record
  writing (`io`), and the decisions of decimation (`algorithms::decimation`).
  The vertex payload is a type parameter: the topology never looks inside it.
- `app/` is the command-line program: file and process I/O, the floating-point
  geometry (face normals and areas, quadric error metrics, smoothing, the camera),
  and the CLI.
- `tests/` runs the library on concrete meshes and `.obj` text.
