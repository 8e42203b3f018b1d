# engine

The core of a real-time speech-translation engine: it segments recognized text,
translates it, checks and cleans the translation, and speaks it again.

## Layout

- `src/` is the library, written in Verus. Every function in it states its behaviour
  as a contract, and Verus proves it:
  - text: segmentation (`text_segmentation`), post-processing
    (`post_processing`), translation quality checks (`translation_quality`), persona
    rewriting (`persona`);
  - tokenizers: Marian (`marian_tokenizer`), M2M100 (`m2m100_tokenizer`, over the
    piece trie in `trie`), the FastSpeech2 text front end (`text_processor`) and the
    VITS tokenizers (`vits_tokenizer`);
  - translation: language pairs and model directories (`language_pair`, `models`),
    and the greedy-decoding and service-reply decisions (`nmt`);
  - speech: TTS requests and the HTTP engines' decisions (`tts`), WAV reading and
    writing, pauses and streaming chunks (`audio`), tensor layouts of the speech
    models (`layout`);
  - the voice-activity detector's thresholds and boundary state machine (`vad`) and
    speaker identification and voice assignment (`speakers`);
  - performance records (`performance_logger`).

  The few calls into the standard library and `serde_json` that Verus cannot read
  are wrapped in small trusted functions (`json`, `text`, `vits_tokenizer`,
  `performance_logger`),
  each with the contract it is trusted to meet.
- `tests/` runs the library on concrete values.
- `app/` is the runtime around the library: files, HTTP clients, ONNX Runtime
  sessions, async interfaces, serialization, and the floating-point signal
  processing that the library leaves out.
