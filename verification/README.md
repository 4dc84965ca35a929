# newsroom

The club news site: articles, members, headlines and business plans.

- `src/` is the verified library. It decides everything the site shows or
  stores: splitting and joining text, article markup (`**bold**`, `*italic*`,
  `_underline_`, `{{image}}`), author links, the newest-first article list,
  member lookup, headline ranking and editing, profile edits, article
  submissions, and the sign-in and edit-permission rules.
- `app/` is the web server around it: routes, templates, the database and
  cookies. It reads rows, hands them to the library and renders what comes
  back.
- `tests/` runs the library on concrete inputs.
