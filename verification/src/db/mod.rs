//! What the database code computes: the statements it runs and how it reads
//! what comes back.

// This module is only about local file storage.
pub mod local;

// Each of those modules are about a functionality linked to data stored on the
// database, and not related to specific routes.
pub mod jwt_auth;

// Each table of the database has it's own module here. Thus, the module `sites`
// contains actions that can be done on the `sites` table.
pub mod sites;
pub mod domains;
// The tables of the words: the score of each page for the word.
pub mod words;
