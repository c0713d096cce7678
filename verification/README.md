# PipeWire virtual cameras

`pipewire-vircam` builds PipeWire virtual cameras: register a camera node, and fill its frames
from your own code. `redcam` is a solid red camera built on it.

The library under `src/` is written in [Verus](https://github.com/verus-lang/verus): what a
camera decides is stated in contracts and proved.

- `format`: the raw formats, their SPA ids, names and plane layouts
- `config`, `error`: what a camera offers, and what is wrong with an offer
- `pod`, `advertise`: the parameter objects a config comes down to
- `negotiate`: what a consumer picks, and the answer to it
- `pacing`: when the next frame is due
- `frame`: a dequeued buffer as a frame to be filled
- `camera`, `history`: the camera as a state machine over the events of its stream
- `red`, `cli`, `text`: what `redcam` draws, reads and prints

The program under `app/` talks to PipeWire. It serializes the objects, reports the stream's
events to the camera and carries out what comes back. It needs `libpipewire-0.3` and a running
PipeWire and WirePlumber session:

```
redcam [--name NAME] [--mode WxH@FPS]...
```
