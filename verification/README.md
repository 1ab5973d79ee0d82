# vleue_navigator

Navigation meshes for Bevy, built on Polyanya.

`src/` is the library verified with Verus: everything in the life cycle of a
navigation mesh that is decided without floating-point geometry.

- `updater`: which navigation meshes to look at after a change, whether and
  how a build starts (the debounce delay of each mesh, on-demand requests,
  running builds, with the proof that a debounced mesh builds at most once per
  delay and then catches up once), how a
  running build is watched (cancellation, timeout), how the cache of static
  obstacles is used, and the ids of managed navigation meshes.
- `stitching`: which layer a build replaces, how the layers grow to hold it,
  the stitching of a rebuilt layer to the layers it connects to, and whether
  the mesh is then published, kept aside, or published as unusable.
- `topology`: the index buffers that show a navigation mesh (triangle fans,
  wireframe with each edge once, outlines) and the triangles read back from a
  triangle list, with the proof that the two agree; which render meshes can
  be read as navigation meshes, and the colour a navigation mesh is shown in.
- `flags`: the preprocessing flags of triangle mesh shapes.
- `obstacles`: the orientation decision shared by the obstacle sources.
- `sorted`: sorted, duplicate-free sets of entity ids and layer pairs.

`app/` holds what works on floating-point geometry, on Bevy's ECS and assets,
or on Polyanya's meshes: the `NavMesh` asset, the plugins, the asset loader,
the updater systems and the obstacle sources. It calls the library for every
decision listed above.

Obstacles can be given as Bevy primitives and as axis-aligned boxes. The
obstacle sources for Avian (2D and 3D) colliders and for parry2d shapes are
left out: those crates are not available here, and what they do is
floating-point geometry on shapes of theirs.
