# rerun_loader_mcap

A Rerun data-loader plugin for ROS 2 recordings in MCAP files, with its logic
verified in Verus.

- `src/` — the verified library:
  - `summary` — the topic summary of a set of recordings (topics sorted by
    channel id, message counts summed across files);
  - `payload`, `messages` — zstd framing and CDR decoding of message payloads;
  - `timestamp`, `image`, `compressed_image`, `pointcloud` — what each parser
    reads from a message; point-cloud fields are decoded column by column;
  - `extraction` — which parser handles a topic, and what the extraction loop
    does with each message (interrupt, trim window, routing);
  - `path`, `args`, `topic`, `text` — file extensions, `timeline=value`
    arguments and the one-line topic description;
  - `laws` — properties that span several functions.
- `app/` — the command-line program: argument handling, file mapping, the
  message loop, logging to the Rerun viewer, colour mapping and the NV12
  conversion.
- `tests/` — tests of the library on real MCAP, CDR and zstd data.

Dependencies: `rustdds` is pinned to 0.11.1 although nothing here calls it:
`ros2-interfaces-humble` depends on `ros2-client` 0.7.6, which does not
compile against rustdds 0.11.8, the version cargo picks otherwise. `rerun`,
which `app/` calls, is not listed: with it the dependency graph grows to
about 600 packages.
