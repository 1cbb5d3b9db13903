# trick

A service that extracts frames from videos, with its rules proved in Verus.

A video comes with the request or from Google Drive. FFmpeg takes one frame out of it,
which is answered as a JPEG, or many, which are answered as a ZIP archive with an
`extraction_report.json`. Each use of an API key is counted against its quota.

## Layout

- `src/` is the library. It decides what is asked of FFmpeg, of Drive and of the
  database, and what a request is answered with. It is verified, up to the calls into
  other crates listed below.
- `app/` is the program around it: routes, forms, downloads, the runs of FFmpeg and the
  database. It tells the library what happened and does what it is told.
- `tests/` run the library on examples.

| module      | what it holds                                                        |
|-------------|----------------------------------------------------------------------|
| `upload`    | forms that carry the video, for one frame and for many               |
| `drive`     | requests that name the video by its Drive URL, and the download      |
| `batch`     | many frames of one video: plans, outcomes and the archives           |
| `ffmpeg`    | command lines, and what the end of a run means                       |
| `report`    | the report on a batch, its order and its JSON text                   |
| `usage`     | API keys: the check of a request, and the making of keys             |
| `ledger`    | what the checks of keys add up to over many requests                 |
| `agreement` | what holds whatever order runs end in, and of forms and URLs alike    |
| `timestamp` | positions in a video, lists of them, and the file names made of them |
| `reply`     | status, headers and body of an answer                                |
| `config`    | limits and defaults                                                  |
| `archive`, `json`, `headers` | the use of the `zip`, `serde_json` and `axum` crates |
| `text`, `number` | strings and decimal numerals                                    |

## What is trusted

The proofs rest on contracts for these calls, which are stated and not proved; the doc
comment of each says what is claimed of it.

- `archive`: `new_archive`, `start_entry`, `write_entry` and `finish_archive`, around the
  `ArchiveWriter` that holds a `zip::ZipWriter`.
- `json`: `json_text`, `json_list`, `json_object` and `write_json_pretty`, around
  `serde_json`.
- `headers`: `read_header`, around `axum::http::HeaderMap`.
- `usage`: `new_uuid`, around `uuid`.
- `ffmpeg`: `read_lossy`, around `String::from_utf8_lossy`.
- `text`: `String::push`.

The laws of `ledger` rest besides on `carried_out`, which says what each of the five SQL
statements does to the table of keys; `tests/database.rs` runs them on SQLite.

## Configuration

- `PORT`: the port that the service listens on, 3000 by default.
- `ADMIN_KEY`: the key that hands out keys.
- `DATABASE_URL`: the connection string of the SQLite database,
  `sqlite:data.db?mode=rwc` by default.

FFmpeg has to be in the `PATH`.

## Use

```bash
curl -X POST http://localhost:3000/admin/keys \
  -H "x-admin-key: $ADMIN_KEY" -H "Content-Type: application/json" \
  -d '{"max_quota": 500}'

curl -X POST http://localhost:3000/extract-frame \
  -H "x-api-key: $KEY" -F "video=@recording.mp4" -F "minute=25" -F "second=40" \
  --output frame.jpg
```

The other endpoints are described at `/swagger-ui`.
