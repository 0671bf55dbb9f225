# physical

The verified core of a CAD data-exchange toolkit, written in Verus.

`src/` is the library. Its functions carry contracts that Verus proves
(the few small wrappers around outside crates have contracts that are
trusted, each documented where it stands): the writers of STEP (AP203, AP214 with colours, AP242 with GD&T
and dimensions, assemblies), IGES, DXF, Gerber, OBJ/MTL, 3MF, GLB,
Parasolid XT, Touchstone, Ruida RD and binary G-code produce exactly the
text or bytes their specification functions describe; the readers of STEP,
KiCad, IDF, DXF, Gerber, OBJ, Touchstone, XT and GLB are specified as folds
over lines, words or tokens; and the modelling kernel's discrete parts (the
half-edge topology of a solid and of its shelling, lofting, boolean
bookkeeping, fillet checks and reading from STEP, the feature tree with undo and redo, bend
setups, assembly degrees of freedom, the accelerator cache) are modelled by
views with their invariants.

Numbers that are floating point in a file travel through the library as
text; parsing and printing them is the job of `app/`.

Laws that relate several functions are public proof functions, among them:

- `dxf_roundtrip::lemma_dxf_roundtrip`, `touchstone_roundtrip::lemma_touchstone_roundtrip`,
  `parasolid_roundtrip::lemma_xt_roundtrip`, `step_roundtrip::lemma_ap203_entity_map` and
  `lemma_ap203_name_read_back`,
  `gerber_roundtrip::lemma_aperture_roundtrip` and `lemma_xy_line_roundtrip`,
  `step_faces_roundtrip::lemma_ap203_faces_read_back` and `lemma_ap203_solid_counts`,
  `obj::lemma_corner_roundtrip`, `gltf::lemma_glb_frame_roundtrip` and
  `lemma_glb_buffer_roundtrip`, `threemf_roundtrip::lemma_stored_zip_whole`: what a
  reader gives back of what a writer wrote;
- `iges::lemma_param_chunks_join`: the parameter lines hold the parameter
  text and nothing else;
- `solid::lemma_slot_order_unique`: ids listed in slot order are listed in
  one order only;
- `parametric::lemma_undo_redo` and its neighbours: what undo, redo, insert,
  remove and reorder undo of each other;
- `solid::lemma_twins_pair_up` and `lemma_added_face_loop`: the half-edge
  structure that adding faces and linking twins keeps;
- `ruida::lemma_scramble_involution`, `bytes::lemma_le32_roundtrip`,
  `drawing::lemma_xref_points_at_objects`.

Layout:

- `src/` the library (one module per format, `*_roundtrip` modules for the
  read-after-write laws);
- `tests/` tests of the library on concrete values;
- `app/` floating-point geometry, JSON, archives and the other parts that
  stay outside verification, built on the library.
