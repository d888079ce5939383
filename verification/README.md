# httpd

A small HTTP server ("Insomnia Server") whose decisions are verified with Verus.

- `POST /echo` sends the body of the request back, as much of it as `Content-Length` says.
- `GET` serves the files of a directory (`./static/` in the program) and none outside of it.
- Everything else is answered with a page for its status code.

`src/` is the verified library:

- `text`: splitting, words and decimal numbers
- `path`: joining paths, and whether one stays inside of another
- `status`, `request`, `response`: status codes and headers
- `error`: what can go wrong
- `context`: what all connections share
- `handler`: one connection, as a function from what happened to what is to be done next
- `request_laws`, `response_laws`, `handler_laws`: what holds of all of them
- `stream_laws`: what a request takes from the stream that the client sends
- `exchange_laws`: what the client is sent

`app/` is the program around it. It accepts connections, reads and writes, and leaves every
decision to the handler. The page for a status code is the file that the options
name for it, else a simple page. The library also takes an embedded directory, whose file
`404.html`, say, comes before the simple page; the program embeds none.
