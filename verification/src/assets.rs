//! The web UI's files: a deliberately small client. One page, a stylesheet,
//! a font declaration and a script that records from the microphone,
//! streams PCM at the microphone's rate over the realtime endpoint, sending
//! the API key as the `openai-insecure-api-key.<key>` subprotocol, and shows
//! the transcript. These are stand-in files of this crate's own, not the
//! project's full web UI, whose page design, fonts and signal display they
//! do not have.
use vstd::prelude::*;

verus! {

/// The web UI page.
pub const INDEX_HTML: &'static str = "<!doctype html>
<html lang=\"en\">
<head>
<meta charset=\"utf-8\">
<meta name=\"viewport\" content=\"width=device-width, initial-scale=1\">
<title>SeedRelay</title>
<link rel=\"stylesheet\" href=\"/font.css\">
<link rel=\"stylesheet\" href=\"/styles.css\">
</head>
<body>
<main class=\"layout\">
<section class=\"panel control\">
<h1 class=\"brand\">SeedRelay</h1>
<p id=\"status\">idle</p>
<div class=\"buttons\">
<button id=\"start\">Start</button>
<button id=\"stop\" disabled>Stop</button>
</div>
</section>
<section class=\"panel readout\">
<div class=\"partial\" id=\"partial\"></div>
<div class=\"final\" id=\"final\"></div>
</section>
</main>
<script src=\"/app.js\"></script>
</body>
</html>
";

/// The web UI's font declarations.
pub const FONT_CSS: &'static str = ":root {
  --ui-font: system-ui, -apple-system, \"Segoe UI\", sans-serif;
}
";

/// The web UI's style sheet.
pub const STYLES_CSS: &'static str = "body { margin: 0; font-family: var(--ui-font); background: #f6f5f2; color: #1d1d1b; }
.layout { display: grid; grid-template-columns: 280px 1fr; gap: 16px; padding: 16px; min-height: 100vh; box-sizing: border-box; }
.panel { background: #fff; border-radius: 12px; padding: 16px; }
.brand { font-size: 22px; white-space: nowrap; margin: 0 0 12px; }
.buttons { display: flex; gap: 8px; }
.partial { color: #77736b; min-height: 2em; }
.final { margin-top: 12px; white-space: pre-wrap; }
";

/// The web UI's script: captures the microphone, streams PCM16 to the
/// realtime endpoint, and shows the transcript.
pub const APP_JS: &'static str = "const els = {
  status: document.querySelector(\"#status\"),
  start: document.querySelector(\"#start\"),
  stop: document.querySelector(\"#stop\"),
  partial: document.querySelector(\"#partial\"),
  final: document.querySelector(\"#final\"),
};
let ws = null;
let context = null;
let source = null;
let processor = null;
let stream = null;

function setStatus(text) { els.status.textContent = text; }

function toBase64(bytes) {
  let binary = \"\";
  for (let i = 0; i < bytes.length; i += 1) binary += String.fromCharCode(bytes[i]);
  return btoa(binary);
}

async function start() {
  const config = await (await fetch(\"/config.json\")).json();
  let apiKey = \"\";
  if (config.authRequired) apiKey = window.prompt(\"API key\") || \"\";
  const scheme = location.protocol === \"https:\" ? \"wss\" : \"ws\";
  let url = `${scheme}://${location.host}/v1/realtime?model=${encodeURIComponent(config.model)}`;
  stream = await navigator.mediaDevices.getUserMedia({ audio: true });
  context = new AudioContext();
  const protocols = [\"realtime\"];
  if (apiKey) protocols.push(`openai-insecure-api-key.${apiKey}`);
  ws = new WebSocket(url, protocols);
  ws.addEventListener(\"message\", (message) => {
    let event;
    try {
      event = JSON.parse(message.data);
    } catch (error) {
      setStatus(\"invalid server event\");
      return;
    }
    if (event.type === \"conversation.item.input_audio_transcription.delta\") {
      els.partial.textContent = event.transcript || els.partial.textContent + (event.delta || \"\");
    } else if (event.type === \"conversation.item.input_audio_transcription.completed\") {
      els.final.textContent = event.transcript || \"\";
      els.partial.textContent = \"\";
      setStatus(\"completed\");
    } else if (event.type === \"error\") {
      setStatus(event.error && event.error.message ? event.error.message : \"error\");
    }
  });
  ws.addEventListener(\"close\", (event) => setStatus(`closed (${event.code}) ${event.reason || \"\"}`));
  ws.addEventListener(\"error\", () => setStatus(\"websocket error\"));
  ws.addEventListener(\"open\", () => {
    ws.send(JSON.stringify({ type: \"session.update\", session: { type: \"transcription\", audio: { input: { format: { type: \"audio/pcm\", rate: context.sampleRate } } } } }));
    source = context.createMediaStreamSource(stream);
    processor = context.createScriptProcessor(4096, 1, 1);
    processor.onaudioprocess = (event) => {
      const input = event.inputBuffer.getChannelData(0);
      const pcm = new Int16Array(input.length);
      for (let i = 0; i < input.length; i += 1) {
        const s = Math.max(-1, Math.min(1, input[i]));
        pcm[i] = s < 0 ? s * 32768 : s * 32767;
      }
      if (ws && ws.readyState === WebSocket.OPEN) {
        ws.send(JSON.stringify({ type: \"input_audio_buffer.append\", audio: toBase64(new Uint8Array(pcm.buffer)) }));
      }
    };
    source.connect(processor);
    processor.connect(context.destination);
    setStatus(\"recording\");
    els.start.disabled = true;
    els.stop.disabled = false;
  });
}

function stop() {
  if (processor) processor.disconnect();
  if (source) source.disconnect();
  if (stream) stream.getTracks().forEach((track) => track.stop());
  if (context) context.close();
  if (ws && ws.readyState === WebSocket.OPEN) ws.send(JSON.stringify({ type: \"input_audio_buffer.commit\" }));
  setStatus(\"transcribing\");
  els.start.disabled = false;
  els.stop.disabled = true;
}

els.start.addEventListener(\"click\", () => start().catch((error) => setStatus(String(error))));
els.stop.addEventListener(\"click\", stop);
";

} // verus!
