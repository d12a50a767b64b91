# video-to-3d-core

The core of a browser video-to-3D reconstruction kernel, with its integer logic
stated in contracts and proved.

- `src/` is the library. Each module states what its functions return with
  `requires` / `ensures` over spec functions, and proves the laws that span calls
  (track consistency, exact evidence partitions, seed-first revisit pairs,
  disjoint dense patches, mesh corners within the dense points, lossless index
  transport, and more).
  - `colmap`: COLMAP sparse text parsing (`cameras.txt`, `images.txt`, `points3D.txt`).
  - `evidence`: the provider-neutral evidence contract and its validation.
  - `camera_state`: the per-frame camera state of the browser and its contract.
  - `tracks`, `revisit`, `bundle`, `sampling`: multi-view bookkeeping.
  - `dense`, `mesh`, `surface`: dense patches, mesh assembly, support groups.
  - `frames`, `features`, `depth`: integer image processing and request checks.
  - `transport`: the packed little-endian mesh buffers of the browser.
  - `text`, `sorted`: shared helpers for characters and index lists.
- `tests/` exercises the library on concrete values.
- `app/` holds what stays outside the proofs: file reading, real-valued geometry
  (pose estimation, triangulation, feature scores, surface fusion, depth fits) and
  the browser entry points with their serde shapes.
