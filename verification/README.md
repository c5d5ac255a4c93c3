# ssimulacra2_cuda

Verified core of a GPU SSIMULACRA2 image comparison pipeline and of an
H.264 Matroska decoding demo, written in Verus.

- `src/avc.rs`: reading an AVC decoder configuration record into an
  Annex B stream of its parameter sets, with a proof that records built
  from parameter sets read back as those sets.
- `src/image.rs`: pitched device images and the host/device copy plans,
  with a proof that uploading then downloading gives back the data.
- `src/ssimulacra2.rs`: the pipeline's device images, memory use (at least
  270 bytes per pixel), scale sizes (ceiling of division by 2^scale),
  stream indices and the one-to-one score layout.
- `src/demux.rs`: turning length-prefixed Matroska video frames into
  Annex B packets for the decoder.
- `src/launch.rs`: kernel launch configuration and parameter counting.
- `app/`: the programs, which run the CUDA, NPP, decoder and file work and
  the floating-point score weighting.
